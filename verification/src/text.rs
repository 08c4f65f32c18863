//! The mathematical model of the text handled by the layout engine.
//!
//! A string is modelled as its sequence of Unicode scalar values
//! (`Seq<char>`).  This module defines how such a sequence is cut into
//! physical lines at `'\n'`, how lines are joined back, and how a line is
//! cut into whitespace-separated words, together with the executable
//! helpers that move between `String`/`&str` and `Vec<char>`.

use vstd::prelude::*;

verus! {

/// Whether `c` has the Unicode `White_Space` property, the set of
/// characters that `char::is_whitespace` recognises.
pub open spec fn is_ws_char(c: char) -> bool {
    let u = c as u32;
    (0x09 <= u && u <= 0x0d) || u == 0x20 || u == 0x85 || u == 0xa0 || u == 0x1680 || (0x2000
        <= u && u <= 0x200a) || u == 0x2028 || u == 0x2029 || u == 0x202f || u == 0x205f || u
        == 0x3000
}

/// Executable test for the Unicode `White_Space` property; mirrors
/// `char::is_whitespace` over the fixed list of white-space scalar values.
pub fn is_whitespace_char(c: char) -> (r: bool)
    ensures
        r == is_ws_char(c),
{
    let u = c as u32;
    (0x09 <= u && u <= 0x0d) || u == 0x20 || u == 0x85 || u == 0xa0 || u == 0x1680 || (0x2000
        <= u && u <= 0x200a) || u == 0x2028 || u == 0x2029 || u == 0x202f || u == 0x205f || u
        == 0x3000
}

/// The segments of `cur + s` delimited by `'\n'`, where `cur` is the part
/// of the current segment read so far.  Splitting never yields an empty
/// result: an empty string has the single segment `""`, and a trailing
/// `'\n'` contributes a final empty segment.
pub open spec fn split_newlines_from(cur: Seq<char>, s: Seq<char>) -> Seq<Seq<char>>
    decreases s.len(),
{
    if s.len() == 0 {
        seq![cur]
    } else if s[0] == '\n' {
        seq![cur] + split_newlines_from(Seq::empty(), s.drop_first())
    } else {
        split_newlines_from(cur.push(s[0]), s.drop_first())
    }
}

/// The segments of `s` delimited by `'\n'`.
pub open spec fn split_newlines(s: Seq<char>) -> Seq<Seq<char>> {
    split_newlines_from(Seq::empty(), s)
}

/// The segments joined back with `'\n'`; the left inverse of
/// `split_newlines`.
pub open spec fn join_newlines(parts: Seq<Seq<char>>) -> Seq<char>
    decreases parts.len(),
{
    if parts.len() == 0 {
        Seq::empty()
    } else if parts.len() == 1 {
        parts[0]
    } else {
        parts[0] + seq!['\n'] + join_newlines(parts.drop_first())
    }
}

/// Whether `s` contains no `'\n'`.
pub open spec fn newline_free(s: Seq<char>) -> bool {
    forall|i: int| 0 <= i < s.len() ==> s[i] != '\n'
}

/// Splitting always produces at least one segment.
pub proof fn lemma_split_newlines_from_len(cur: Seq<char>, s: Seq<char>)
    ensures
        split_newlines_from(cur, s).len() >= 1,
    decreases s.len(),
{
    if s.len() == 0 {
    } else if s[0] == '\n' {
        lemma_split_newlines_from_len(Seq::empty(), s.drop_first());
    } else {
        lemma_split_newlines_from_len(cur.push(s[0]), s.drop_first());
    }
}

/// Every segment produced by splitting is newline-free, provided the
/// partial segment carried in is.
pub proof fn lemma_split_newlines_from_free(cur: Seq<char>, s: Seq<char>)
    requires
        newline_free(cur),
    ensures
        forall|k: int|
            0 <= k < split_newlines_from(cur, s).len() ==> newline_free(
                #[trigger] split_newlines_from(cur, s)[k],
            ),
    decreases s.len(),
{
    if s.len() == 0 {
        assert(forall|k: int|
            0 <= k < split_newlines_from(cur, s).len() ==> newline_free(
                #[trigger] split_newlines_from(cur, s)[k],
            ));
    } else if s[0] == '\n' {
        lemma_split_newlines_from_free(Seq::empty(), s.drop_first());
        let rest = split_newlines_from(Seq::empty(), s.drop_first());
        assert(split_newlines_from(cur, s) == seq![cur] + rest);
        assert forall|k: int| 0 <= k < split_newlines_from(cur, s).len() implies newline_free(
            #[trigger] split_newlines_from(cur, s)[k],
        ) by {
            if k == 0 {
                assert((seq![cur] + rest)[0] == cur);
            } else {
                assert(newline_free(rest[k - 1]));
                assert((seq![cur] + rest)[k] == rest[k - 1]);
            }
        }
    } else {
        assert(newline_free(cur.push(s[0])));
        lemma_split_newlines_from_free(cur.push(s[0]), s.drop_first());
        assert(split_newlines_from(cur, s) == split_newlines_from(cur.push(s[0]), s.drop_first()));
        assert(forall|k: int|
            0 <= k < split_newlines_from(cur, s).len() ==> newline_free(
                #[trigger] split_newlines_from(cur, s)[k],
            ));
    }
}

/// Joining the segments of `cur + s` restores `cur + s`.
pub proof fn lemma_join_split_newlines_from(cur: Seq<char>, s: Seq<char>)
    ensures
        join_newlines(split_newlines_from(cur, s)) == cur + s,
    decreases s.len(),
{
    if s.len() == 0 {
        assert(join_newlines(split_newlines_from(cur, s)) =~= cur + s);
    } else if s[0] == '\n' {
        lemma_join_split_newlines_from(Seq::empty(), s.drop_first());
        lemma_split_newlines_from_len(Seq::empty(), s.drop_first());
        let rest = split_newlines_from(Seq::empty(), s.drop_first());
        assert((seq![cur] + rest).drop_first() =~= rest);
        assert((seq![cur] + rest)[0] == cur);
        assert(Seq::empty() + s.drop_first() =~= s.drop_first());
        assert(cur + seq!['\n'] + s.drop_first() =~= cur + s);
    } else {
        lemma_join_split_newlines_from(cur.push(s[0]), s.drop_first());
        assert(cur.push(s[0]) + s.drop_first() =~= cur + s);
    }
}

/// Joining the segments of `s` restores `s`.
pub proof fn lemma_join_split_newlines(s: Seq<char>)
    ensures
        join_newlines(split_newlines(s)) == s,
{
    lemma_join_split_newlines_from(Seq::empty(), s);
    assert(Seq::empty() + s =~= s);
}

/// Reading a newline-free prefix only extends the current segment.
pub proof fn lemma_split_newlines_from_shift(cur: Seq<char>, p: Seq<char>, t: Seq<char>)
    requires
        newline_free(p),
    ensures
        split_newlines_from(cur, p + t) == split_newlines_from(cur + p, t),
    decreases p.len(),
{
    if p.len() == 0 {
        assert(p + t =~= t);
        assert(cur + p =~= cur);
    } else {
        assert((p + t)[0] == p[0]);
        assert(p[0] != '\n');
        assert((p + t).drop_first() =~= p.drop_first() + t);
        lemma_split_newlines_from_shift(cur.push(p[0]), p.drop_first(), t);
        assert(cur.push(p[0]) + p.drop_first() =~= cur + p);
    }
}

/// Splitting the join of at least one newline-free segment restores the
/// segments; the right inverse of `join_newlines` on well-formed line
/// sequences.
pub proof fn lemma_split_join_newlines(parts: Seq<Seq<char>>)
    requires
        parts.len() >= 1,
        forall|k: int| 0 <= k < parts.len() ==> newline_free(#[trigger] parts[k]),
    ensures
        split_newlines(join_newlines(parts)) == parts,
    decreases parts.len(),
{
    if parts.len() == 1 {
        lemma_split_newlines_from_shift(Seq::empty(), parts[0], Seq::empty());
        assert(parts[0] + Seq::<char>::empty() =~= parts[0]);
        assert(Seq::empty() + parts[0] =~= parts[0]);
        assert(split_newlines(join_newlines(parts)) =~= parts);
    } else {
        let rest = parts.drop_first();
        assert(forall|k: int| 0 <= k < rest.len() ==> newline_free(#[trigger] rest[k]));
        lemma_split_join_newlines(rest);
        let j = join_newlines(rest);
        assert(join_newlines(parts) == parts[0] + seq!['\n'] + j);
        assert(parts[0] + seq!['\n'] + j =~= parts[0] + (seq!['\n'] + j));
        lemma_split_newlines_from_shift(Seq::empty(), parts[0], seq!['\n'] + j);
        assert(Seq::empty() + parts[0] =~= parts[0]);
        assert((seq!['\n'] + j)[0] == '\n');
        assert((seq!['\n'] + j).drop_first() =~= j);
        assert(split_newlines(join_newlines(parts)) =~= seq![parts[0]] + split_newlines(j));
        assert(seq![parts[0]] + rest =~= parts);
    }
}

/// The words of `cur + s`: maximal runs of non-whitespace characters,
/// where `cur` is the part of the current word read so far.
pub open spec fn split_whitespace_from(cur: Seq<char>, s: Seq<char>) -> Seq<Seq<char>>
    decreases s.len(),
{
    if s.len() == 0 {
        if cur.len() == 0 {
            Seq::empty()
        } else {
            seq![cur]
        }
    } else if is_ws_char(s[0]) {
        if cur.len() == 0 {
            split_whitespace_from(cur, s.drop_first())
        } else {
            seq![cur] + split_whitespace_from(Seq::empty(), s.drop_first())
        }
    } else {
        split_whitespace_from(cur.push(s[0]), s.drop_first())
    }
}

/// The whitespace-separated words of `s`.
pub open spec fn split_whitespace(s: Seq<char>) -> Seq<Seq<char>> {
    split_whitespace_from(Seq::empty(), s)
}

/// A word as produced by `split_whitespace`: non-empty and free of
/// whitespace.
pub open spec fn word_shaped(w: Seq<char>) -> bool {
    w.len() >= 1 && forall|i: int| 0 <= i < w.len() ==> !is_ws_char(w[i])
}

/// Every word produced by splitting on whitespace is `word_shaped`,
/// provided the partial word carried in is free of whitespace.
pub proof fn lemma_split_whitespace_from_words(cur: Seq<char>, s: Seq<char>)
    requires
        forall|i: int| 0 <= i < cur.len() ==> !is_ws_char(cur[i]),
    ensures
        forall|k: int|
            0 <= k < split_whitespace_from(cur, s).len() ==> word_shaped(
                #[trigger] split_whitespace_from(cur, s)[k],
            ),
    decreases s.len(),
{
    if s.len() == 0 {
        assert(forall|k: int|
            0 <= k < split_whitespace_from(cur, s).len() ==> word_shaped(
                #[trigger] split_whitespace_from(cur, s)[k],
            ));
    } else if is_ws_char(s[0]) {
        if cur.len() == 0 {
            lemma_split_whitespace_from_words(cur, s.drop_first());
            assert(split_whitespace_from(cur, s) == split_whitespace_from(cur, s.drop_first()));
            assert(forall|k: int|
                0 <= k < split_whitespace_from(cur, s).len() ==> word_shaped(
                    #[trigger] split_whitespace_from(cur, s)[k],
                ));
        } else {
            lemma_split_whitespace_from_words(Seq::empty(), s.drop_first());
            let rest = split_whitespace_from(Seq::empty(), s.drop_first());
            assert(split_whitespace_from(cur, s) == seq![cur] + rest);
            assert forall|k: int|
                0 <= k < split_whitespace_from(cur, s).len() implies word_shaped(
                #[trigger] split_whitespace_from(cur, s)[k],
            ) by {
                if k == 0 {
                    assert((seq![cur] + rest)[0] == cur);
                } else {
                    assert(word_shaped(rest[k - 1]));
                    assert((seq![cur] + rest)[k] == rest[k - 1]);
                }
            }
        }
    } else {
        assert(forall|i: int| 0 <= i < cur.push(s[0]).len() ==> !is_ws_char(cur.push(s[0])[i]));
        lemma_split_whitespace_from_words(cur.push(s[0]), s.drop_first());
        assert(split_whitespace_from(cur, s) == split_whitespace_from(
            cur.push(s[0]),
            s.drop_first(),
        ));
        assert(forall|k: int|
            0 <= k < split_whitespace_from(cur, s).len() ==> word_shaped(
                #[trigger] split_whitespace_from(cur, s)[k],
            ));
    }
}

/// One step of the greedy packer: append `word` to the last output line
/// when it fits behind a separating space, start a new line with it when it
/// does not, and start a new line with its first `width` characters when
/// the word alone is too long.
pub open spec fn wrap_step(lines: Seq<Seq<char>>, word: Seq<char>, width: nat) -> Seq<Seq<char>> {
    if lines.len() > 0 && lines.last().len() + 1 + word.len() <= width {
        lines.update(lines.len() - 1, lines.last() + seq![' '] + word)
    } else if word.len() <= width {
        lines.push(word)
    } else {
        lines.push(word.take(width as int))
    }
}

/// The greedy packing of `words` into lines of at most `width` characters.
pub open spec fn wrap_words(words: Seq<Seq<char>>, width: nat) -> Seq<Seq<char>>
    decreases words.len(),
{
    if words.len() == 0 {
        Seq::empty()
    } else {
        wrap_step(wrap_words(words.drop_last(), width), words.last(), width)
    }
}

/// The wrapped form of one explicit line: unchanged when it already fits,
/// greedily re-packed word by word otherwise.  Every segment yields at
/// least one output line, so explicit line breaks are preserved even for
/// an overlong run of pure whitespace, which packs into a single empty
/// line.
pub open spec fn wrapped_segment(seg: Seq<char>, width: nat) -> Seq<Seq<char>> {
    if seg.len() <= width {
        seq![seg]
    } else {
        let packed = wrap_words(split_whitespace(seg), width);
        if packed.len() == 0 {
            seq![Seq::empty()]
        } else {
            packed
        }
    }
}

/// The wrapped lines of all segments, in order.
pub open spec fn wrapped_lines_of(segs: Seq<Seq<char>>, width: nat) -> Seq<Seq<char>>
    decreases segs.len(),
{
    if segs.len() == 0 {
        Seq::empty()
    } else {
        wrapped_segment(segs[0], width) + wrapped_lines_of(segs.drop_first(), width)
    }
}

/// The physical lines of `s` after wrapping every explicit line to `width`.
pub open spec fn wrapped_lines(s: Seq<char>, width: nat) -> Seq<Seq<char>> {
    wrapped_lines_of(split_newlines(s), width)
}

/// The re-flowed form of `s`: every line wrapped to at most `width`
/// characters, joined back with `'\n'`.  A width of zero yields the empty
/// string.
pub open spec fn adapted_to_width(s: Seq<char>, width: nat) -> Seq<char> {
    if width == 0 {
        Seq::empty()
    } else {
        join_newlines(wrapped_lines(s, width))
    }
}

/// The greatest length among `parts` (zero when there are none).
pub open spec fn max_len(parts: Seq<Seq<char>>) -> nat
    decreases parts.len(),
{
    if parts.len() == 0 {
        0nat
    } else if parts.last().len() > max_len(parts.drop_last()) {
        parts.last().len()
    } else {
        max_len(parts.drop_last())
    }
}

/// The width of `s`: the length of its longest physical line, counted in
/// Unicode scalar values.
pub open spec fn text_width(s: Seq<char>) -> nat {
    max_len(split_newlines(s))
}

/// The height of `s`: its number of physical lines.  An empty string has
/// height 1; a trailing newline contributes a final empty line.
pub open spec fn text_height(s: Seq<char>) -> nat {
    split_newlines(s).len()
}

/// No part is longer than `max_len` of all parts.
pub proof fn lemma_max_len_bound(parts: Seq<Seq<char>>)
    ensures
        forall|k: int| 0 <= k < parts.len() ==> (#[trigger] parts[k]).len() <= max_len(parts),
    decreases parts.len(),
{
    if parts.len() > 0 {
        lemma_max_len_bound(parts.drop_last());
        assert(forall|k: int| 0 <= k < parts.len() - 1 ==> parts[k] == parts.drop_last()[k]);
    }
}

/// A line the greedy packer may emit: non-empty, at most `width` long, and
/// free of newlines.
pub open spec fn packed_line(l: Seq<char>, width: nat) -> bool {
    1 <= l.len() <= width && newline_free(l)
}

/// Every line packed from `word_shaped` words is a `packed_line` for a
/// positive width.
pub proof fn lemma_wrap_words_lines(words: Seq<Seq<char>>, width: nat)
    requires
        width >= 1,
        forall|k: int| 0 <= k < words.len() ==> word_shaped(#[trigger] words[k]),
    ensures
        forall|k: int|
            0 <= k < wrap_words(words, width).len() ==> packed_line(
                #[trigger] wrap_words(words, width)[k],
                width,
            ),
    decreases words.len(),
{
    assert(is_ws_char('\n')) by {
        assert('\n' as u32 == 0x0a);
    }
    if words.len() > 0 {
        let prev = wrap_words(words.drop_last(), width);
        let word = words.last();
        assert(word_shaped(word));
        assert(newline_free(word));
        assert(forall|k: int|
            0 <= k < words.drop_last().len() ==> word_shaped(#[trigger] words.drop_last()[k]));
        lemma_wrap_words_lines(words.drop_last(), width);
        let out = wrap_words(words, width);
        assert(out == wrap_step(prev, word, width));
        if prev.len() > 0 && prev.last().len() + 1 + word.len() <= width {
            let merged = prev.last() + seq![' '] + word;
            assert(!is_ws_char(' ') ==> false) by {
                assert(' ' as u32 == 0x20);
            }
            assert(' ' != '\n');
            assert(newline_free(merged));
            assert(packed_line(merged, width));
            assert forall|k: int| 0 <= k < out.len() implies packed_line(
                #[trigger] out[k],
                width,
            ) by {
                if k == out.len() - 1 {
                    assert(out[k] == merged);
                } else {
                    assert(out[k] == prev[k]);
                    assert(packed_line(prev[k], width));
                }
            }
        } else if word.len() <= width {
            assert forall|k: int| 0 <= k < out.len() implies packed_line(
                #[trigger] out[k],
                width,
            ) by {
                if k == out.len() - 1 {
                    assert(out[k] == word);
                } else {
                    assert(out[k] == prev[k]);
                    assert(packed_line(prev[k], width));
                }
            }
        } else {
            let cut = word.take(width as int);
            assert(cut.len() == width);
            assert(newline_free(cut));
            assert forall|k: int| 0 <= k < out.len() implies packed_line(
                #[trigger] out[k],
                width,
            ) by {
                if k == out.len() - 1 {
                    assert(out[k] == cut);
                } else {
                    assert(out[k] == prev[k]);
                    assert(packed_line(prev[k], width));
                }
            }
        }
    }
}

/// Every line of a wrapped segment fits the width and is newline-free, for
/// a positive width and a newline-free segment.
pub proof fn lemma_wrapped_segment_lines(seg: Seq<char>, width: nat)
    requires
        width >= 1,
        newline_free(seg),
    ensures
        forall|k: int|
            0 <= k < wrapped_segment(seg, width).len() ==> (#[trigger] wrapped_segment(
                seg,
                width,
            )[k]).len() <= width && newline_free(wrapped_segment(seg, width)[k]),
{
    if seg.len() <= width {
        assert(wrapped_segment(seg, width) == seq![seg]);
        assert(wrapped_segment(seg, width)[0] == seg);
    } else {
        lemma_split_whitespace_from_words(Seq::empty(), seg);
        lemma_wrap_words_lines(split_whitespace(seg), width);
        if wrap_words(split_whitespace(seg), width).len() == 0 {
            assert(wrapped_segment(seg, width) == seq![Seq::<char>::empty()]);
            assert(wrapped_segment(seg, width)[0].len() == 0);
        }
    }
}

/// Every line wrapped from newline-free segments fits the width and is
/// newline-free, for a positive width.
pub proof fn lemma_wrapped_lines_of_bound(segs: Seq<Seq<char>>, width: nat)
    requires
        width >= 1,
        forall|k: int| 0 <= k < segs.len() ==> newline_free(#[trigger] segs[k]),
    ensures
        forall|k: int|
            0 <= k < wrapped_lines_of(segs, width).len() ==> (#[trigger] wrapped_lines_of(
                segs,
                width,
            )[k]).len() <= width && newline_free(wrapped_lines_of(segs, width)[k]),
    decreases segs.len(),
{
    if segs.len() > 0 {
        let head = wrapped_segment(segs[0], width);
        let rest = segs.drop_first();
        assert(forall|k: int| 0 <= k < rest.len() ==> newline_free(#[trigger] rest[k]));
        lemma_wrapped_lines_of_bound(rest, width);
        lemma_wrapped_segment_lines(segs[0], width);
        let out = wrapped_lines_of(segs, width);
        assert(out == head + wrapped_lines_of(rest, width));
        assert forall|k: int| 0 <= k < out.len() implies (#[trigger] out[k]).len() <= width
            && newline_free(out[k]) by {
            if k < head.len() {
                assert(out[k] == head[k]);
            } else {
                assert(out[k] == wrapped_lines_of(rest, width)[k - head.len()]);
            }
        }
    }
}

/// Wrapping lines that already fit the width changes nothing.
pub proof fn lemma_wrapped_lines_of_fit(lines: Seq<Seq<char>>, width: nat)
    requires
        forall|k: int| 0 <= k < lines.len() ==> (#[trigger] lines[k]).len() <= width,
    ensures
        wrapped_lines_of(lines, width) == lines,
    decreases lines.len(),
{
    if lines.len() > 0 {
        let rest = lines.drop_first();
        assert(forall|k: int| 0 <= k < rest.len() ==> (#[trigger] rest[k]).len() <= width);
        lemma_wrapped_lines_of_fit(rest, width);
        assert(wrapped_segment(lines[0], width) == seq![lines[0]]);
        assert(seq![lines[0]] + rest =~= lines);
    }
}

/// Every physical line of the re-flowed string is at most `width` long.
/// For a width of zero the result is empty, whose single physical line has
/// length zero.
pub proof fn lemma_adapted_lines_bound(s: Seq<char>, width: nat)
    ensures
        forall|k: int|
            0 <= k < split_newlines(adapted_to_width(s, width)).len() ==> (
            #[trigger] split_newlines(adapted_to_width(s, width))[k]).len() <= width,
{
    let out = adapted_to_width(s, width);
    if width == 0 {
        assert(out == Seq::<char>::empty());
        assert(split_newlines(out) == seq![Seq::<char>::empty()]);
        assert(split_newlines(out)[0].len() == 0);
    } else {
        let l = wrapped_lines(s, width);
        lemma_split_newlines_from_free(Seq::empty(), s);
        lemma_wrapped_lines_of_bound(split_newlines(s), width);
        if l.len() == 0 {
            assert(out == Seq::<char>::empty());
            assert(split_newlines(out) == seq![Seq::<char>::empty()]);
            assert(split_newlines(out)[0].len() == 0);
        } else {
            lemma_split_join_newlines(l);
            assert(split_newlines(out) == l);
        }
    }
}

/// Every segment wraps to at least one output line.
pub proof fn lemma_wrapped_segment_nonempty(seg: Seq<char>, width: nat)
    ensures
        wrapped_segment(seg, width).len() >= 1,
{
}

/// Wrapping yields at least one output line per input segment.
pub proof fn lemma_wrapped_lines_of_len(segs: Seq<Seq<char>>, width: nat)
    ensures
        wrapped_lines_of(segs, width).len() >= segs.len(),
    decreases segs.len(),
{
    if segs.len() > 0 {
        lemma_wrapped_lines_of_len(segs.drop_first(), width);
        lemma_wrapped_segment_nonempty(segs[0], width);
    }
}

/// Re-flowing never merges lines across an explicit break: for a positive
/// width the result has at least as many physical lines as the input.
pub proof fn lemma_adapted_preserves_breaks(s: Seq<char>, width: nat)
    requires
        width >= 1,
    ensures
        split_newlines(adapted_to_width(s, width)).len() >= split_newlines(s).len(),
{
    let l = wrapped_lines(s, width);
    lemma_split_newlines_from_len(Seq::empty(), s);
    lemma_wrapped_lines_of_len(split_newlines(s), width);
    lemma_split_newlines_from_free(Seq::empty(), s);
    lemma_wrapped_lines_of_bound(split_newlines(s), width);
    lemma_split_join_newlines(l);
}

/// Re-flowing is idempotent: wrapping an already wrapped string to the same
/// width returns it unchanged.
pub proof fn lemma_adapted_idempotent(s: Seq<char>, width: nat)
    ensures
        adapted_to_width(adapted_to_width(s, width), width) == adapted_to_width(s, width),
{
    let out = adapted_to_width(s, width);
    if width == 0 {
        assert(out == Seq::<char>::empty());
    } else {
        let l = wrapped_lines(s, width);
        lemma_split_newlines_from_free(Seq::empty(), s);
        lemma_wrapped_lines_of_bound(split_newlines(s), width);
        if l.len() == 0 {
            assert(out == Seq::<char>::empty());
            let e = Seq::<char>::empty();
            assert(split_newlines(e) == seq![e]);
            assert(wrapped_segment(e, width) == seq![e]);
            assert(wrapped_lines_of(seq![e], width) =~= seq![e] + wrapped_lines_of(
                seq![e].drop_first(),
                width,
            ));
            assert(seq![e].drop_first() =~= Seq::<Seq<char>>::empty());
            assert(wrapped_lines(e, width) =~= seq![e]);
            assert(adapted_to_width(e, width) == join_newlines(seq![e]));
            assert(join_newlines(seq![e]) == e);
        } else {
            lemma_split_join_newlines(l);
            assert(split_newlines(out) == l);
            lemma_wrapped_lines_of_fit(l, width);
            assert(wrapped_lines(out, width) == l);
            assert(adapted_to_width(out, width) == join_newlines(l));
        }
    }
}

/// The views of a sequence of character vectors.
pub open spec fn char_views(s: Seq<Vec<char>>) -> Seq<Seq<char>> {
    s.map_values(|v: Vec<char>| v@)
}

/// The views of a sequence of strings.
pub open spec fn string_views(s: Seq<String>) -> Seq<Seq<char>> {
    s.map_values(|v: String| v@)
}

/// Joining grows segment by segment: appending one more segment appends a
/// `'\n'` and that segment (the first segment comes bare).
pub proof fn lemma_join_newlines_push(parts: Seq<Seq<char>>, p: Seq<char>)
    ensures
        parts.len() == 0 ==> join_newlines(parts.push(p)) == p,
        parts.len() > 0 ==> join_newlines(parts.push(p)) == join_newlines(parts) + seq!['\n'] + p,
    decreases parts.len(),
{
    if parts.len() == 0 {
        assert(parts.push(p) =~= seq![p]);
    } else {
        let rest = parts.drop_first();
        lemma_join_newlines_push(rest, p);
        assert(parts.push(p).drop_first() =~= rest.push(p));
        assert(parts.push(p)[0] == parts[0]);
        if rest.len() == 0 {
            assert(parts =~= seq![parts[0]]);
            assert(join_newlines(parts) == parts[0]);
            assert(join_newlines(rest.push(p)) == p);
            assert(join_newlines(parts.push(p)) == parts[0] + seq!['\n'] + p);
        } else {
            assert(join_newlines(parts.push(p)) == parts[0] + seq!['\n'] + join_newlines(
                rest.push(p),
            ));
            assert(join_newlines(rest.push(p)) == join_newlines(rest) + seq!['\n'] + p);
            assert(parts[0] + seq!['\n'] + (join_newlines(rest) + seq!['\n'] + p) =~= (parts[0]
                + seq!['\n'] + join_newlines(rest)) + seq!['\n'] + p);
        }
    }
}

/// The physical lines of `chars`, split at `'\n'`.
pub fn split_newline_segments(chars: &Vec<char>) -> (r: Vec<Vec<char>>)
    ensures
        char_views(r@) == split_newlines(chars@),
{
    let mut finished: Vec<Vec<char>> = Vec::new();
    let mut current: Vec<char> = Vec::new();
    let mut i: usize = 0;
    proof {
        assert(chars@.skip(0) =~= chars@);
        assert(char_views(finished@) =~= Seq::<Seq<char>>::empty());
        assert(Seq::<Seq<char>>::empty() + split_newlines_from(current@, chars@)
            =~= split_newlines_from(current@, chars@));
    }
    while i < chars.len()
        invariant
            i <= chars@.len(),
            split_newlines(chars@) == char_views(finished@) + split_newlines_from(
                current@,
                chars@.skip(i as int),
            ),
        decreases chars@.len() - i,
    {
        let ghost rem = chars@.skip(i as int);
        assert(rem[0] == chars@[i as int]);
        assert(rem.drop_first() =~= chars@.skip(i + 1 as int));
        let c = chars[i];
        if c == '\n' {
            assert(split_newlines_from(current@, rem) == seq![current@] + split_newlines_from(
                Seq::empty(),
                rem.drop_first(),
            ));
            let ghost old_finished = finished@;
            finished.push(current);
            current = Vec::new();
            assert(char_views(old_finished.push(finished@.last())) =~= char_views(old_finished)
                + seq![finished@.last()@]);
            assert(char_views(old_finished) + (seq![finished@.last()@] + split_newlines_from(
                current@,
                chars@.skip(i + 1 as int),
            )) =~= (char_views(old_finished) + seq![finished@.last()@]) + split_newlines_from(
                current@,
                chars@.skip(i + 1 as int),
            ));
        } else {
            assert(split_newlines_from(current@, rem) == split_newlines_from(
                current@.push(c),
                rem.drop_first(),
            ));
            current.push(c);
        }
        i = i + 1;
    }
    assert(chars@.skip(chars@.len() as int) =~= Seq::<char>::empty());
    assert(split_newlines_from(current@, Seq::empty()) == seq![current@]);
    let ghost old_finished = finished@;
    finished.push(current);
    assert(char_views(finished@) =~= char_views(old_finished) + seq![finished@.last()@]);
    finished
}

/// The whitespace-separated words of `chars`.
pub fn split_whitespace_words(chars: &Vec<char>) -> (r: Vec<Vec<char>>)
    ensures
        char_views(r@) == split_whitespace(chars@),
{
    let mut words: Vec<Vec<char>> = Vec::new();
    let mut current: Vec<char> = Vec::new();
    let mut i: usize = 0;
    proof {
        assert(chars@.skip(0) =~= chars@);
        assert(char_views(words@) =~= Seq::<Seq<char>>::empty());
        assert(Seq::<Seq<char>>::empty() + split_whitespace_from(current@, chars@)
            =~= split_whitespace_from(current@, chars@));
    }
    while i < chars.len()
        invariant
            i <= chars@.len(),
            split_whitespace(chars@) == char_views(words@) + split_whitespace_from(
                current@,
                chars@.skip(i as int),
            ),
        decreases chars@.len() - i,
    {
        let ghost rem = chars@.skip(i as int);
        assert(rem[0] == chars@[i as int]);
        assert(rem.drop_first() =~= chars@.skip(i + 1 as int));
        let c = chars[i];
        if is_whitespace_char(c) {
            if current.len() > 0 {
                assert(split_whitespace_from(current@, rem) == seq![current@]
                    + split_whitespace_from(Seq::empty(), rem.drop_first()));
                let ghost old_words = words@;
                words.push(current);
                current = Vec::new();
                assert(char_views(old_words.push(words@.last())) =~= char_views(old_words)
                    + seq![words@.last()@]);
                assert(char_views(old_words) + (seq![words@.last()@] + split_whitespace_from(
                    current@,
                    chars@.skip(i + 1 as int),
                )) =~= (char_views(old_words) + seq![words@.last()@]) + split_whitespace_from(
                    current@,
                    chars@.skip(i + 1 as int),
                ));
            } else {
                assert(split_whitespace_from(current@, rem) == split_whitespace_from(
                    current@,
                    rem.drop_first(),
                ));
            }
        } else {
            assert(split_whitespace_from(current@, rem) == split_whitespace_from(
                current@.push(c),
                rem.drop_first(),
            ));
            current.push(c);
        }
        i = i + 1;
    }
    assert(chars@.skip(chars@.len() as int) =~= Seq::<char>::empty());
    if current.len() > 0 {
        assert(split_whitespace_from(current@, Seq::empty()) == seq![current@]);
        let ghost old_words = words@;
        words.push(current);
        assert(char_views(words@) =~= char_views(old_words) + seq![words@.last()@]);
    } else {
        assert(split_whitespace_from(current@, Seq::empty()) =~= Seq::<Seq<char>>::empty());
        assert(char_views(words@) + Seq::<Seq<char>>::empty() =~= char_views(words@));
    }
    words
}

/// The given lines joined with `'\n'`.
pub fn join_newline_segments(lines: &Vec<Vec<char>>) -> (r: Vec<char>)
    ensures
        r@ == join_newlines(char_views(lines@)),
{
    let mut r: Vec<char> = Vec::new();
    let mut j: usize = 0;
    while j < lines.len()
        invariant
            j <= lines@.len(),
            r@ == join_newlines(char_views(lines@).take(j as int)),
        decreases lines@.len() - j,
    {
        let ghost before = char_views(lines@).take(j as int);
        proof {
            lemma_join_newlines_push(before, lines@[j as int]@);
            assert(char_views(lines@).take(j + 1 as int) =~= before.push(lines@[j as int]@));
        }
        if j > 0 {
            r.push('\n');
        }
        let mut k: usize = 0;
        let ghost base = r@;
        while k < lines[j].len()
            invariant
                k <= lines@[j as int]@.len(),
                j < lines@.len(),
                r@ == base + lines@[j as int]@.take(k as int),
            decreases lines@[j as int]@.len() - k,
        {
            r.push(lines[j][k]);
            assert(r@ =~= base + lines@[j as int]@.take(k + 1 as int));
            k = k + 1;
        }
        assert(lines@[j as int]@.take(lines@[j as int]@.len() as int) =~= lines@[j as int]@);
        proof {
            if j == 0 {
                assert(before.len() == 0);
                assert(base =~= Seq::<char>::empty());
                assert(r@ =~= lines@[0]@);
            } else {
                assert(before.len() > 0);
                assert(base =~= join_newlines(before) + seq!['\n']);
                assert(r@ =~= join_newlines(before) + seq!['\n'] + lines@[j as int]@);
            }
        }
        j = j + 1;
    }
    assert(char_views(lines@).take(lines@.len() as int) =~= char_views(lines@));
    r
}

/// Relies on `String::push`, which appends the given character to the end
/// of the string.
#[verifier::external_body]
pub fn string_push_char(s: &mut String, c: char)
    ensures
        final(s)@ == old(s)@.push(c),
{
    s.push(c);
}

/// The characters of `s` collected into a vector.
pub fn str_to_chars(s: &str) -> (r: Vec<char>)
    ensures
        r@ == s@,
{
    let n = s.unicode_len();
    let mut r: Vec<char> = Vec::new();
    let mut i: usize = 0;
    while i < n
        invariant
            n == s@.len(),
            i <= n,
            r@ =~= s@.take(i as int),
        decreases n - i,
    {
        r.push(s.get_char(i));
        assert(r@ =~= s@.take(i + 1 as int));
        i = i + 1;
    }
    assert(s@.take(n as int) =~= s@);
    r
}

/// A fresh vector with the same characters as `v`.
pub fn copy_chars(v: &Vec<char>) -> (r: Vec<char>)
    ensures
        r@ == v@,
{
    let mut r: Vec<char> = Vec::new();
    let mut i: usize = 0;
    while i < v.len()
        invariant
            i <= v@.len(),
            r@ =~= v@.take(i as int),
        decreases v@.len() - i,
    {
        r.push(v[i]);
        assert(r@ =~= v@.take(i + 1 as int));
        i = i + 1;
    }
    assert(v@.take(v@.len() as int) =~= v@);
    r
}

/// The characters of `v` collected into a `String`.
pub fn chars_to_string(v: &Vec<char>) -> (r: String)
    ensures
        r@ == v@,
{
    let mut r = String::new();
    let mut i: usize = 0;
    while i < v.len()
        invariant
            i <= v@.len(),
            r@ =~= v@.take(i as int),
        decreases v@.len() - i,
    {
        string_push_char(&mut r, v[i]);
        assert(r@ =~= v@.take(i + 1 as int));
        i = i + 1;
    }
    assert(v@.take(v@.len() as int) =~= v@);
    r
}

} // verus!
