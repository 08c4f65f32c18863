//! String utilities of the layout engine, chief among them the word-wrap
//! function `adapt_to_width`.

use vstd::prelude::*;

use crate::text::adapted_to_width;
use crate::text::char_views;
use crate::text::chars_to_string;
use crate::text::copy_chars;
use crate::text::is_whitespace_char;
use crate::text::is_ws_char;
use crate::text::join_newline_segments;
use crate::text::split_newline_segments;
use crate::text::split_newlines;
use crate::text::split_whitespace_words;
use crate::text::str_to_chars;
use crate::text::string_push_char;
use crate::text::wrap_step;
use crate::text::wrap_words;
use crate::text::wrapped_lines_of;
use crate::text::wrapped_segment;

verus! {

/// Wrap one explicit line to at most `width` characters: keep it unchanged
/// when it already fits, otherwise pack its whitespace-separated words
/// greedily, hard-cutting a word longer than the whole width to its first
/// `width` characters.
fn adapt_line_to_width(line: &Vec<char>, width: usize) -> (r: Vec<Vec<char>>)
    requires
        width >= 1,
    ensures
        char_views(r@) == wrapped_segment(line@, width as nat),
{
    if line.len() <= width {
        let kept = copy_chars(line);
        let mut r: Vec<Vec<char>> = Vec::new();
        r.push(kept);
        assert(char_views(r@) =~= seq![line@]);
        return r;
    }
    let words = split_whitespace_words(line);
    let ghost word_views = char_views(words@);
    let mut lines: Vec<Vec<char>> = Vec::new();
    let mut j: usize = 0;
    proof {
        assert(word_views.take(0) =~= Seq::<Seq<char>>::empty());
        assert(char_views(lines@) =~= Seq::<Seq<char>>::empty());
    }
    while j < words.len()
        invariant
            j <= words@.len(),
            width >= 1,
            word_views == char_views(words@),
            char_views(lines@) == wrap_words(word_views.take(j as int), width as nat),
        decreases words@.len() - j,
    {
        let ghost prev = char_views(lines@);
        let ghost word = word_views[j as int];
        proof {
            assert(word_views.take(j + 1 as int).drop_last() =~= word_views.take(j as int));
            assert(word_views.take(j + 1 as int).last() == word);
        }
        let word_len = words[j].len();
        let mut merged = false;
        if lines.len() > 0 {
            let last_len = lines[lines.len() - 1].len();
            if last_len < width && word_len <= width - last_len - 1 {
                // The word fits behind a separating space on the last line.
                let mut last = lines.pop().unwrap();
                last.push(' ');
                let mut k: usize = 0;
                let ghost base = last@;
                while k < words[j].len()
                    invariant
                        j < words@.len(),
                        k <= words@[j as int]@.len(),
                        last@ == base + words@[j as int]@.take(k as int),
                    decreases words@[j as int]@.len() - k,
                {
                    last.push(words[j][k]);
                    assert(last@ =~= base + words@[j as int]@.take(k + 1 as int));
                    k = k + 1;
                }
                assert(words@[j as int]@.take(words@[j as int]@.len() as int) =~= words@[j
                    as int]@);
                lines.push(last);
                proof {
                    assert(prev.last() + seq![' '] + word =~= base + word);
                    assert(char_views(lines@) =~= prev.update(
                        prev.len() - 1,
                        prev.last() + seq![' '] + word,
                    ));
                }
                merged = true;
            }
        }
        if !merged {
            if word_len <= width {
                let kept = copy_chars(&words[j]);
                lines.push(kept);
                assert(char_views(lines@) =~= prev.push(word));
            } else {
                let mut cut: Vec<char> = Vec::new();
                let mut k: usize = 0;
                while k < width
                    invariant
                        j < words@.len(),
                        k <= width,
                        width < words@[j as int]@.len(),
                        cut@ == words@[j as int]@.take(k as int),
                    decreases width - k,
                {
                    cut.push(words[j][k]);
                    assert(cut@ =~= words@[j as int]@.take(k + 1 as int));
                    k = k + 1;
                }
                lines.push(cut);
                assert(char_views(lines@) =~= prev.push(word.take(width as int)));
            }
        }
        proof {
            assert(char_views(lines@) == wrap_step(prev, word, width as nat));
        }
        j = j + 1;
    }
    assert(word_views.take(words@.len() as int) =~= word_views);
    if lines.len() == 0 {
        // An overlong run of pure whitespace has no words to pack; the
        // segment still contributes one empty output line.
        let empty_line: Vec<char> = Vec::new();
        lines.push(empty_line);
        assert(char_views(lines@) =~= seq![Seq::<char>::empty()]);
    }
    lines
}

/// Re-flow `string` so that every physical line has at most `width`
/// characters: explicit line breaks are preserved, a line that fits is kept
/// as it is, a longer line is re-packed word by word, and a single word
/// longer than `width` is cut to its first `width` characters.  A width of
/// zero yields the empty string.
pub fn adapt_to_width(string: &str, width: usize) -> (r: String)
    ensures
        r@ == adapted_to_width(string@, width as nat),
        width == 0 ==> r@ == Seq::<char>::empty(),
{
    if width == 0 {
        return String::new();
    }
    let chars = str_to_chars(string);
    let segs = split_newline_segments(&chars);
    let ghost seg_views = split_newlines(string@);
    let mut out_lines: Vec<Vec<char>> = Vec::new();
    let mut si: usize = 0;
    proof {
        assert(seg_views.skip(0) =~= seg_views);
        assert(char_views(out_lines@) =~= Seq::<Seq<char>>::empty());
        assert(Seq::<Seq<char>>::empty() + wrapped_lines_of(seg_views, width as nat)
            =~= wrapped_lines_of(seg_views, width as nat));
    }
    while si < segs.len()
        invariant
            si <= segs@.len(),
            width >= 1,
            seg_views == split_newlines(string@),
            char_views(segs@) == seg_views,
            char_views(out_lines@) + wrapped_lines_of(seg_views.skip(si as int), width as nat)
                == wrapped_lines_of(seg_views, width as nat),
        decreases segs@.len() - si,
    {
        let ghost rem = seg_views.skip(si as int);
        proof {
            assert(rem[0] == seg_views[si as int]);
            assert(rem.drop_first() =~= seg_views.skip(si + 1 as int));
            assert(wrapped_lines_of(rem, width as nat) == wrapped_segment(
                seg_views[si as int],
                width as nat,
            ) + wrapped_lines_of(rem.drop_first(), width as nat));
        }
        let ghost before = char_views(out_lines@);
        let mut wrapped = adapt_line_to_width(&segs[si], width);
        let ghost wrapped_views = char_views(wrapped@);
        out_lines.append(&mut wrapped);
        proof {
            assert(char_views(out_lines@) =~= before + wrapped_views);
            assert((before + wrapped_views) + wrapped_lines_of(
                seg_views.skip(si + 1 as int),
                width as nat,
            ) =~= before + (wrapped_views + wrapped_lines_of(
                seg_views.skip(si + 1 as int),
                width as nat,
            )));
        }
        si = si + 1;
    }
    proof {
        assert(seg_views.skip(segs@.len() as int) =~= Seq::<Seq<char>>::empty());
        assert(char_views(out_lines@) + Seq::<Seq<char>>::empty() =~= char_views(out_lines@));
    }
    let joined = join_newline_segments(&out_lines);
    chars_to_string(&joined)
}

/// The number of Unicode scalar values `string` consists of.
pub fn num_chars(string: &str) -> (r: usize)
    ensures
        r == string@.len(),
{
    string.unicode_len()
}

/// Whether `string` is empty or consists only of whitespace.
pub fn is_empty(string: &str) -> (r: bool)
    ensures
        r == (forall|i: int| 0 <= i < string@.len() ==> is_ws_char(string@[i])),
{
    let n = string.unicode_len();
    let mut i: usize = 0;
    while i < n
        invariant
            n == string@.len(),
            i <= n,
            forall|k: int| 0 <= k < i ==> is_ws_char(string@[k]),
        decreases n - i,
    {
        if !is_whitespace_char(string.get_char(i)) {
            return false;
        }
        i = i + 1;
    }
    true
}

/// A string consisting of `n` times the character `c`.
pub fn char_n_times(c: char, n: usize) -> (r: String)
    ensures
        r@ == Seq::new(n as nat, |i: int| c),
{
    let mut r = String::new();
    let mut i: usize = 0;
    while i < n
        invariant
            i <= n,
            r@ =~= Seq::new(i as nat, |k: int| c),
        decreases n - i,
    {
        string_push_char(&mut r, c);
        assert(r@ =~= Seq::new((i + 1) as nat, |k: int| c));
        i = i + 1;
    }
    r
}

} // verus!
