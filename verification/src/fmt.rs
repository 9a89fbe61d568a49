//! Greedy line wrapping by whitespace-separated words, measured in Unicode
//! codepoints. Words that fit are packed onto the current line with single
//! spaces between them; a word longer than the line width is hard-split by
//! codepoint count across as many lines as it needs.

use vstd::prelude::*;
use vstd::string::StrSliceExecFns;

verus! {

/// The separator characters: Unicode's `White_Space` set, the same set that
/// `str::split_whitespace` splits on.
pub open spec fn is_space(c: char) -> bool {
    let u = c as u32;
    u == 0x09 || u == 0x0A || u == 0x0B || u == 0x0C || u == 0x0D || u == 0x20 || u == 0x85
        || u == 0xA0 || u == 0x1680 || (0x2000 <= u && u <= 0x200A) || u == 0x2028 || u == 0x2029
        || u == 0x202F || u == 0x205F || u == 0x3000
}

/// Runtime test for `is_space`.
pub fn is_space_char(c: char) -> (r: bool)
    ensures
        r == is_space(c),
{
    let u = c as u32;
    u == 0x09 || u == 0x0A || u == 0x0B || u == 0x0C || u == 0x0D || u == 0x20 || u == 0x85
        || u == 0xA0 || u == 0x1680 || (0x2000 <= u && u <= 0x200A) || u == 0x2028 || u == 0x2029
        || u == 0x202F || u == 0x205F || u == 0x3000
}

/// The longest whitespace-free prefix of `s`.
pub open spec fn take_word(s: Seq<char>) -> Seq<char>
    decreases s.len(),
{
    if s.len() == 0 || is_space(s[0]) {
        Seq::empty()
    } else {
        seq![s[0]] + take_word(s.drop_first())
    }
}

pub proof fn lemma_take_word_len(s: Seq<char>)
    ensures
        take_word(s).len() <= s.len(),
        s.len() > 0 && !is_space(s[0]) ==> take_word(s).len() >= 1,
    decreases s.len(),
{
    if s.len() == 0 || is_space(s[0]) {
    } else {
        lemma_take_word_len(s.drop_first());
    }
}

/// The whitespace-separated words of `s`, in order. Every word is a maximal
/// whitespace-free run, so no word is empty.
pub open spec fn words_of(s: Seq<char>) -> Seq<Seq<char>>
    decreases s.len(),
    via words_of_decreases
{
    if s.len() == 0 {
        Seq::empty()
    } else if is_space(s[0]) {
        words_of(s.drop_first())
    } else {
        seq![take_word(s)] + words_of(s.skip(take_word(s).len() as int))
    }
}

#[via_fn]
proof fn words_of_decreases(s: Seq<char>) {
    lemma_take_word_len(s);
}

/// The two accumulators of the greedy pass: the completed lines, and the
/// line still being filled.
pub ghost struct WrapState {
    pub lines: Seq<Seq<char>>,
    pub cur: Seq<char>,
}

/// Packs a word too long for one line into the current line and as many
/// further lines as it needs: the first chunk tops the current line off,
/// every later chunk is a full line, and the last chunk (possibly short)
/// is left in the current line. Expects `st.cur.len() < width`.
pub open spec fn pack_chunks(st: WrapState, rest: Seq<char>, width: nat) -> WrapState
    decreases rest.len(),
{
    if rest.len() == 0 || st.cur.len() >= width {
        st
    } else {
        let k = if width - st.cur.len() <= rest.len() {
            width - st.cur.len()
        } else {
            rest.len() as int
        };
        let cur2 = st.cur + rest.take(k);
        if cur2.len() == width {
            pack_chunks(
                WrapState { lines: st.lines.push(cur2), cur: Seq::empty() },
                rest.skip(k),
                width,
            )
        } else {
            WrapState { lines: st.lines, cur: cur2 }
        }
    }
}

/// One step of the greedy pass: place the word `w` given the state `st`.
///
/// A word that fits on the current line (leaving room for one separating
/// space) is appended; a word that fits on a line of its own starts a fresh
/// line, flushing the current one if it holds anything; a longer word is
/// hard-split by `pack_chunks`, after flushing the current line when not
/// even one codepoint of the word could join it.
pub open spec fn wrap_word(st: WrapState, w: Seq<char>, width: nat) -> WrapState {
    if w.len() <= width {
        if st.cur.len() + w.len() < width {
            if st.cur.len() == 0 {
                WrapState { lines: st.lines, cur: w }
            } else {
                WrapState { lines: st.lines, cur: st.cur + seq![' '] + w }
            }
        } else {
            if st.cur.len() == 0 {
                WrapState { lines: st.lines, cur: w }
            } else {
                WrapState { lines: st.lines.push(st.cur), cur: w }
            }
        }
    } else {
        let st1 = if st.cur.len() == 0 {
            st
        } else if st.cur.len() + 1 >= width {
            WrapState { lines: st.lines.push(st.cur), cur: Seq::empty() }
        } else {
            WrapState { lines: st.lines, cur: st.cur + seq![' '] }
        };
        pack_chunks(st1, w, width)
    }
}

/// The greedy pass over a sequence of words, left to right.
pub open spec fn wrap_fold(st: WrapState, ws: Seq<Seq<char>>, width: nat) -> WrapState
    decreases ws.len(),
{
    if ws.len() == 0 {
        st
    } else {
        wrap_word(wrap_fold(st, ws.drop_last(), width), ws.last(), width)
    }
}

/// The wrapped form of the text `s` at line width `width`: what the
/// executable `lines` function returns, as a sequence of lines of
/// codepoints.
pub open spec fn wrap_lines(s: Seq<char>, width: nat) -> Seq<Seq<char>> {
    let st = wrap_fold(
        WrapState { lines: Seq::empty(), cur: Seq::empty() },
        words_of(s),
        width,
    );
    if st.cur.len() == 0 {
        st.lines
    } else {
        st.lines.push(st.cur)
    }
}

/// No word produced by splitting is empty.
pub proof fn lemma_words_nonempty(s: Seq<char>)
    ensures
        forall|i: int| 0 <= i < words_of(s).len() ==> #[trigger] words_of(s)[i].len() >= 1,
    decreases s.len(),
{
    if s.len() == 0 {
    } else if is_space(s[0]) {
        lemma_words_nonempty(s.drop_first());
        assert forall|i: int| 0 <= i < words_of(s).len() implies #[trigger] words_of(
            s,
        )[i].len() >= 1 by {
            assert(words_of(s)[i] == words_of(s.drop_first())[i]);
        }
    } else {
        lemma_take_word_len(s);
        let rest = words_of(s.skip(take_word(s).len() as int));
        lemma_words_nonempty(s.skip(take_word(s).len() as int));
        assert(words_of(s) == seq![take_word(s)] + rest);
        assert forall|i: int| 0 <= i < words_of(s).len() implies #[trigger] words_of(
            s,
        )[i].len() >= 1 by {
            if i == 0 {
                assert(words_of(s)[0] == take_word(s));
            } else {
                assert(words_of(s)[i] == rest[i - 1]);
                assert(rest[i - 1].len() >= 1);
            }
        }
    }
}

/// The input splits into no words at all exactly when it has no
/// non-whitespace codepoint.
pub proof fn lemma_words_empty_iff_blank(s: Seq<char>)
    ensures
        words_of(s).len() == 0 <==> (forall|i: int| 0 <= i < s.len() ==> is_space(#[trigger] s[i])),
    decreases s.len(),
{
    if s.len() == 0 {
    } else if is_space(s[0]) {
        let t = s.drop_first();
        lemma_words_empty_iff_blank(t);
        if forall|i: int| 0 <= i < t.len() ==> is_space(#[trigger] t[i]) {
            assert forall|i: int| 0 <= i < s.len() implies is_space(#[trigger] s[i]) by {
                if i > 0 {
                    assert(s[i] == t[i - 1]);
                }
            }
        } else {
            let j = choose|j: int| 0 <= j < t.len() && !is_space(#[trigger] t[j]);
            assert(s[j + 1] == t[j]);
        }
    } else {
        assert(!is_space(s[0]));
    }
}

/// `take_word` is the prefix that ends at the first whitespace character.
proof fn lemma_take_word_at(s: Seq<char>, n: int)
    requires
        0 <= n <= s.len(),
        forall|k: int| 0 <= k < n ==> !is_space(#[trigger] s[k]),
        n == s.len() || is_space(s[n]),
    ensures
        take_word(s) == s.take(n),
    decreases n,
{
    if n == 0 {
        assert(take_word(s) =~= s.take(0));
    } else {
        let t = s.drop_first();
        assert forall|k: int| 0 <= k < n - 1 implies !is_space(#[trigger] t[k]) by {
            assert(t[k] == s[k + 1]);
        }
        assert(n - 1 == t.len() || is_space(t[n - 1]));
        lemma_take_word_at(t, n - 1);
        assert(take_word(s) =~= s.take(n));
    }
}

/// The views of a sequence of character vectors.
pub open spec fn views_of(vs: Seq<Vec<char>>) -> Seq<Seq<char>> {
    vs.map_values(|v: Vec<char>| v@)
}

proof fn lemma_views_push(vs: Seq<Vec<char>>, v: Vec<char>)
    ensures
        views_of(vs.push(v)) == views_of(vs).push(v@),
{
    assert(views_of(vs.push(v)) =~= views_of(vs).push(v@));
}

/// Splits a character sequence into its whitespace-separated words.
fn split_words(text: &Vec<char>) -> (ws: Vec<Vec<char>>)
    ensures
        views_of(ws@) == words_of(text@),
{
    let n = text.len();
    let mut ws: Vec<Vec<char>> = Vec::new();
    let mut i: usize = 0;
    proof {
        assert(text@.skip(0) =~= text@);
        assert(views_of(ws@) + words_of(text@) =~= words_of(text@));
    }
    while i < n
        invariant
            n == text@.len(),
            i <= n,
            words_of(text@) == views_of(ws@) + words_of(text@.skip(i as int)),
        decreases n - i,
    {
        if is_space_char(text[i]) {
            proof {
                assert(text@.skip(i as int).drop_first() =~= text@.skip(i as int + 1));
            }
            i = i + 1;
        } else {
            let ghost start = i as int;
            let mut w: Vec<char> = Vec::new();
            while i < n && !is_space_char(text[i])
                invariant
                    n == text@.len(),
                    0 <= start <= i as int <= n,
                    w@ == text@.subrange(start, i as int),
                    forall|k: int| start <= k < i as int ==> !is_space(#[trigger] text@[k]),
                decreases n - i,
            {
                proof {
                    assert(text@.subrange(start, i as int + 1) =~= text@.subrange(
                        start,
                        i as int,
                    ).push(text@[i as int]));
                }
                w.push(text[i]);
                i = i + 1;
            }
            proof {
                let tail = text@.skip(start);
                let m = i as int - start;
                assert forall|k: int| 0 <= k < m implies !is_space(#[trigger] tail[k]) by {
                    assert(tail[k] == text@[start + k]);
                }
                assert(m == tail.len() || is_space(tail[m]));
                lemma_take_word_at(tail, m);
                assert(tail.take(m) =~= text@.subrange(start, i as int));
                assert(take_word(tail) == w@);
                assert(m >= 1);
                assert(tail.skip(m) =~= text@.skip(i as int));
                assert(words_of(tail) == seq![w@] + words_of(text@.skip(i as int)));
                lemma_views_push(ws@, w);
                assert(views_of(ws@) + words_of(tail) =~= views_of(ws@.push(w)) + words_of(
                    text@.skip(i as int),
                ));
            }
            ws.push(w);
        }
    }
    proof {
        assert(text@.skip(n as int) =~= Seq::<char>::empty());
        assert(views_of(ws@) + words_of(Seq::<char>::empty()) =~= views_of(ws@));
    }
    ws
}

/// Every completed line is non-empty and no longer than `width`.
pub open spec fn lines_good(ls: Seq<Seq<char>>, width: nat) -> bool {
    forall|i: int| 0 <= i < ls.len() ==> 1 <= (#[trigger] ls[i]).len() <= width
}

pub open spec fn state_good(st: WrapState, width: nat) -> bool {
    lines_good(st.lines, width) && st.cur.len() <= width
}

pub open spec fn state_nonempty(st: WrapState) -> bool {
    st.lines.len() > 0 || st.cur.len() > 0
}

proof fn lemma_pack_chunks_good(st: WrapState, rest: Seq<char>, width: nat)
    requires
        width >= 1,
        lines_good(st.lines, width),
        st.cur.len() < width,
    ensures
        lines_good(pack_chunks(st, rest, width).lines, width),
        pack_chunks(st, rest, width).cur.len() < width,
        pack_chunks(st, rest, width).lines.len() >= st.lines.len(),
        rest.len() > 0 ==> state_nonempty(pack_chunks(st, rest, width)),
    decreases rest.len(),
{
    if rest.len() == 0 {
    } else {
        let k = if width - st.cur.len() <= rest.len() {
            width - st.cur.len()
        } else {
            rest.len() as int
        };
        let cur2 = st.cur + rest.take(k);
        if cur2.len() == width {
            lemma_pack_chunks_good(
                WrapState { lines: st.lines.push(cur2), cur: Seq::empty() },
                rest.skip(k),
                width,
            );
        }
    }
}

proof fn lemma_wrap_word_good(st: WrapState, w: Seq<char>, width: nat)
    requires
        width >= 1,
        state_good(st, width),
    ensures
        state_good(wrap_word(st, w, width), width),
        wrap_word(st, w, width).lines.len() >= st.lines.len(),
        w.len() >= 1 ==> state_nonempty(wrap_word(st, w, width)),
{
    if w.len() <= width {
    } else {
        let st1 = if st.cur.len() == 0 {
            st
        } else if st.cur.len() + 1 >= width {
            WrapState { lines: st.lines.push(st.cur), cur: Seq::empty() }
        } else {
            WrapState { lines: st.lines, cur: st.cur + seq![' '] }
        };
        lemma_pack_chunks_good(st1, w, width);
    }
}

proof fn lemma_wrap_fold_good(st: WrapState, ws: Seq<Seq<char>>, width: nat)
    requires
        width >= 1,
        state_good(st, width),
        forall|i: int| 0 <= i < ws.len() ==> #[trigger] ws[i].len() >= 1,
    ensures
        state_good(wrap_fold(st, ws, width), width),
        wrap_fold(st, ws, width).lines.len() >= st.lines.len(),
        ws.len() > 0 ==> state_nonempty(wrap_fold(st, ws, width)),
    decreases ws.len(),
{
    if ws.len() == 0 {
    } else {
        lemma_wrap_fold_good(st, ws.drop_last(), width);
        lemma_wrap_word_good(wrap_fold(st, ws.drop_last(), width), ws.last(), width);
    }
}

/// Copies `src[from..to]` onto the end of `dst`.
fn append_range(dst: &mut Vec<char>, src: &Vec<char>, from: usize, to: usize)
    requires
        from <= to <= src@.len(),
    ensures
        final(dst)@ == old(dst)@ + src@.subrange(from as int, to as int),
{
    let ghost dst0 = dst@;
    let mut t: usize = from;
    proof {
        assert(dst@ =~= dst0 + src@.subrange(from as int, from as int));
    }
    while t < to
        invariant
            from <= t <= to <= src@.len(),
            dst@ == dst0 + src@.subrange(from as int, t as int),
        decreases to - t,
    {
        proof {
            assert(src@.subrange(from as int, t as int + 1) =~= src@.subrange(
                from as int,
                t as int,
            ).push(src@[t as int]));
        }
        dst.push(src[t]);
        t = t + 1;
    }
}

/// A fresh copy of a character vector.
fn clone_chars(src: &Vec<char>) -> (r: Vec<char>)
    ensures
        r@ == src@,
{
    let mut r: Vec<char> = Vec::new();
    append_range(&mut r, src, 0, src.len());
    proof {
        assert(r@ =~= src@);
    }
    r
}

/// Wraps a text given as a character vector; the heart of `lines`.
pub fn wrap_chars(text: &Vec<char>, width: usize) -> (r: Vec<Vec<char>>)
    requires
        width >= 1,
    ensures
        views_of(r@) == wrap_lines(text@, width as nat),
{
    let ws = split_words(text);
    let mut out: Vec<Vec<char>> = Vec::new();
    let mut cur: Vec<char> = Vec::new();
    let ghost init = WrapState { lines: Seq::empty(), cur: Seq::empty() };
    let mut j: usize = 0;
    proof {
        assert(views_of(out@) =~= Seq::<Seq<char>>::empty());
        assert(views_of(ws@).take(0) =~= Seq::<Seq<char>>::empty());
    }
    while j < ws.len()
        invariant
            width >= 1,
            j <= ws@.len(),
            views_of(ws@) == words_of(text@),
            cur@.len() <= width,
            wrap_fold(init, views_of(ws@).take(j as int), width as nat) == (WrapState {
                lines: views_of(out@),
                cur: cur@,
            }),
        decreases ws@.len() - j,
    {
        let ghost st = WrapState { lines: views_of(out@), cur: cur@ };
        let ghost w = ws@[j as int]@;
        proof {
            assert(views_of(ws@).take(j as int + 1).drop_last() =~= views_of(ws@).take(
                j as int,
            ));
            assert(views_of(ws@).take(j as int + 1).last() == w);
        }
        let wl = ws[j].len();
        if wl <= width {
            if wl < width - cur.len() {
                // The word fits on the current line, with room for a
                // separating space when the line already holds something.
                if cur.len() > 0 {
                    cur.push(' ');
                }
                append_range(&mut cur, &ws[j], 0, wl);
                proof {
                    assert(w.subrange(0, wl as int) =~= w);
                    if st.cur.len() > 0 {
                        assert(cur@ =~= st.cur + seq![' '] + w);
                    } else {
                        assert(cur@ =~= w);
                    }
                }
            } else {
                // The word starts a fresh line; flush the current one if it
                // holds anything.
                if cur.len() > 0 {
                    proof {
                        lemma_views_push(out@, cur);
                    }
                    out.push(cur);
                }
                cur = clone_chars(&ws[j]);
            }
        } else {
            // The word is longer than a whole line: hard-split it.
            if cur.len() > 0 && cur.len() >= width - 1 {
                proof {
                    lemma_views_push(out@, cur);
                }
                out.push(cur);
                cur = Vec::new();
            } else if cur.len() > 0 {
                cur.push(' ');
                proof {
                    assert(cur@ =~= st.cur + seq![' ']);
                }
            }
            let ghost st1 = WrapState { lines: views_of(out@), cur: cur@ };
            proof {
                assert(wrap_word(st, w, width as nat) == pack_chunks(st1, w, width as nat));
                assert(w.skip(0) =~= w);
            }
            let mut pos: usize = 0;
            while pos < wl
                invariant
                    width >= 1,
                    j < ws@.len(),
                    w == ws@[j as int]@,
                    wl == w.len(),
                    pos <= wl,
                    cur@.len() < width,
                    pack_chunks(
                        WrapState { lines: views_of(out@), cur: cur@ },
                        w.skip(pos as int),
                        width as nat,
                    ) == pack_chunks(st1, w, width as nat),
                decreases wl - pos,
            {
                let ghost stc = WrapState { lines: views_of(out@), cur: cur@ };
                let ghost rest = w.skip(pos as int);
                let avail = width - cur.len();
                let room = wl - pos;
                let k = if avail <= room {
                    avail
                } else {
                    room
                };
                proof {
                    assert(rest.take(k as int) =~= w.subrange(pos as int, pos as int + k as int));
                    assert(rest.skip(k as int) =~= w.skip(pos as int + k as int));
                }
                append_range(&mut cur, &ws[j], pos, pos + k);
                pos = pos + k;
                if cur.len() == width {
                    proof {
                        lemma_views_push(out@, cur);
                        assert(stc.cur + rest.take(k as int) =~= cur@);
                    }
                    out.push(cur);
                    cur = Vec::new();
                } else {
                    proof {
                        assert(stc.cur + rest.take(k as int) =~= cur@);
                    }
                }
            }
            proof {
                assert(w.skip(wl as int) =~= Seq::<char>::empty());
            }
        }
        j = j + 1;
    }
    proof {
        assert(views_of(ws@).take(ws@.len() as int) =~= views_of(ws@));
    }
    if cur.len() > 0 {
        proof {
            lemma_views_push(out@, cur);
        }
        out.push(cur);
    }
    out
}

/// Relies on String::push: appends the one character to the end of the
/// string.
#[verifier::external_body]
fn push_char(s: &mut String, c: char)
    ensures
        final(s)@ == old(s)@.push(c),
{
    s.push(c);
}

/// The codepoints of a string slice, as a vector.
fn chars_of_str(s: &str) -> (v: Vec<char>)
    ensures
        v@ == s@,
{
    let n = s.unicode_len();
    let mut v: Vec<char> = Vec::new();
    let mut i: usize = 0;
    while i < n
        invariant
            n == s@.len(),
            i <= n,
            v@ == s@.take(i as int),
        decreases n - i,
    {
        proof {
            assert(s@.take(i as int + 1) =~= s@.take(i as int).push(s@[i as int]));
        }
        v.push(s.get_char(i));
        i = i + 1;
    }
    proof {
        assert(s@.take(n as int) =~= s@);
    }
    v
}

/// A string holding exactly the given codepoints.
pub(crate) fn string_of_chars(v: &Vec<char>) -> (s: String)
    ensures
        s@ == v@,
{
    let mut s = String::new();
    let mut i: usize = 0;
    while i < v.len()
        invariant
            i <= v@.len(),
            s@ == v@.take(i as int),
        decreases v@.len() - i,
    {
        proof {
            assert(v@.take(i as int + 1) =~= v@.take(i as int).push(v@[i as int]));
        }
        push_char(&mut s, v[i]);
        i = i + 1;
    }
    proof {
        assert(v@.take(v@.len() as int) =~= v@);
    }
    s
}

/// The views of a sequence of strings.
pub open spec fn string_views(vs: Seq<String>) -> Seq<Seq<char>> {
    vs.map_values(|s: String| s@)
}

/// Reflows `s` into lines of at most `max_width` codepoints, greedily, by
/// whitespace-separated words; a word longer than `max_width` is split by
/// codepoint count. Whitespace-only input gives no lines, and no line is
/// empty.
pub fn lines(s: String, max_width: usize) -> (r: Vec<String>)
    requires
        max_width >= 1,
    ensures
        string_views(r@) == wrap_lines(s@, max_width as nat),
{
    let cs = chars_of_str(s.as_str());
    let lv = wrap_chars(&cs, max_width);
    let mut r: Vec<String> = Vec::new();
    let mut i: usize = 0;
    proof {
        assert(string_views(r@) =~= views_of(lv@).take(0));
    }
    while i < lv.len()
        invariant
            i <= lv@.len(),
            string_views(r@) == views_of(lv@).take(i as int),
        decreases lv@.len() - i,
    {
        let line = string_of_chars(&lv[i]);
        proof {
            assert(string_views(r@.push(line)) =~= string_views(r@).push(line@));
            assert(views_of(lv@).take(i as int + 1) =~= views_of(lv@).take(i as int).push(
                lv@[i as int]@,
            ));
        }
        r.push(line);
        i = i + 1;
    }
    proof {
        assert(views_of(lv@).take(lv@.len() as int) =~= views_of(lv@));
    }
    r
}

/// The non-whitespace codepoints of `s`, in order.
pub open spec fn visible(s: Seq<char>) -> Seq<char> {
    s.filter(|c: char| !is_space(c))
}

/// A word: no codepoint of it is whitespace.
pub open spec fn word_chars_ok(w: Seq<char>) -> bool {
    forall|i: int| 0 <= i < w.len() ==> !is_space(#[trigger] w[i])
}

proof fn lemma_visible_id(s: Seq<char>)
    requires
        word_chars_ok(s),
    ensures
        visible(s) == s,
    decreases s.len(),
{
    reveal(Seq::filter);
    if s.len() == 0 {
        assert(visible(s) =~= s);
    } else {
        lemma_visible_id(s.drop_last());
        assert(visible(s) =~= s);
    }
}

proof fn lemma_visible_one(c: char)
    ensures
        visible(seq![c]) == (if is_space(c) {
            Seq::<char>::empty()
        } else {
            seq![c]
        }),
{
    reveal(Seq::filter);
    assert(seq![c].drop_last() =~= Seq::<char>::empty());
    assert(Seq::<char>::empty().filter(|c: char| !is_space(c)) =~= Seq::<char>::empty());
    if is_space(c) {
        assert(visible(seq![c]) =~= Seq::<char>::empty());
    } else {
        assert(visible(seq![c]) =~= seq![c]);
    }
}

proof fn lemma_take_word_nonspace(s: Seq<char>)
    ensures
        word_chars_ok(take_word(s)),
    decreases s.len(),
{
    if s.len() == 0 || is_space(s[0]) {
    } else {
        lemma_take_word_nonspace(s.drop_first());
        let w = take_word(s);
        assert forall|i: int| 0 <= i < w.len() implies !is_space(#[trigger] w[i]) by {
            if i > 0 {
                assert(w[i] == take_word(s.drop_first())[i - 1]);
            }
        }
    }
}

proof fn lemma_take_word_prefix(s: Seq<char>)
    ensures
        take_word(s) == s.take(take_word(s).len() as int),
    decreases s.len(),
{
    if s.len() == 0 || is_space(s[0]) {
        assert(take_word(s) =~= s.take(0));
    } else {
        let t = s.drop_first();
        lemma_take_word_prefix(t);
        lemma_take_word_len(t);
        assert(take_word(s) =~= s.take(take_word(s).len() as int));
    }
}

/// Every codepoint of every word is non-whitespace.
proof fn lemma_words_nonspace(s: Seq<char>)
    ensures
        forall|k: int| 0 <= k < words_of(s).len() ==> word_chars_ok(#[trigger] words_of(s)[k]),
    decreases s.len(),
{
    if s.len() == 0 {
    } else if is_space(s[0]) {
        lemma_words_nonspace(s.drop_first());
        assert forall|k: int|
            0 <= k < words_of(s).len() implies word_chars_ok(#[trigger] words_of(s)[k]) by {
            assert(words_of(s)[k] == words_of(s.drop_first())[k]);
        }
    } else {
        let rest = words_of(s.skip(take_word(s).len() as int));
        lemma_take_word_len(s);
        lemma_take_word_nonspace(s);
        lemma_words_nonspace(s.skip(take_word(s).len() as int));
        assert forall|k: int|
            0 <= k < words_of(s).len() implies word_chars_ok(#[trigger] words_of(s)[k]) by {
            if k == 0 {
                assert(words_of(s)[0] == take_word(s));
            } else {
                assert(words_of(s)[k] == rest[k - 1]);
            }
        }
    }
}

/// The words of `s`, run together, are exactly its non-whitespace
/// codepoints.
proof fn lemma_words_flatten(s: Seq<char>)
    ensures
        words_of(s).flatten() == visible(s),
    decreases s.len(),
{
    broadcast use Seq::filter_distributes_over_add;

    if s.len() == 0 {
        reveal(Seq::filter);
        assert(words_of(s).flatten() =~= visible(s));
    } else if is_space(s[0]) {
        lemma_words_flatten(s.drop_first());
        lemma_visible_one(s[0]);
        assert(seq![s[0]] + s.drop_first() =~= s);
        assert(visible(seq![s[0]] + s.drop_first()) == visible(seq![s[0]]) + visible(
            s.drop_first(),
        ));
        assert(words_of(s).flatten() =~= visible(s));
    } else {
        let w = take_word(s);
        let k = w.len() as int;
        lemma_take_word_len(s);
        lemma_take_word_prefix(s);
        lemma_take_word_nonspace(s);
        lemma_visible_id(w);
        lemma_words_flatten(s.skip(k));
        vstd::seq_lib::lemma_flatten_concat(seq![w], words_of(s.skip(k)));
        seq![w].lemma_flatten_singleton();
        assert(s.take(k) + s.skip(k) =~= s);
        assert(visible(s.take(k) + s.skip(k)) == visible(s.take(k)) + visible(s.skip(k)));
        assert(words_of(s).flatten() == w + words_of(s.skip(k)).flatten());
        assert(words_of(s).flatten() =~= visible(s));
    }
}

/// The non-whitespace codepoints a state holds: those of its completed
/// lines, then those of the line being filled.
pub open spec fn state_content(st: WrapState) -> Seq<char> {
    visible(st.lines.flatten()) + visible(st.cur)
}

proof fn lemma_pack_chunks_content(st: WrapState, rest: Seq<char>, width: nat)
    requires
        width >= 1,
        st.cur.len() < width,
        word_chars_ok(rest),
    ensures
        state_content(pack_chunks(st, rest, width)) == state_content(st) + rest,
    decreases rest.len(),
{
    broadcast use Seq::filter_distributes_over_add, Seq::lemma_flatten_push;

    if rest.len() == 0 {
        assert(state_content(st) + rest =~= state_content(st));
    } else {
        let k = if width - st.cur.len() <= rest.len() {
            width - st.cur.len()
        } else {
            rest.len() as int
        };
        let chunk = rest.take(k);
        let cur2 = st.cur + chunk;
        assert(word_chars_ok(chunk));
        lemma_visible_id(chunk);
        assert(visible(cur2) == visible(st.cur) + chunk);
        if cur2.len() == width {
            let st1 = WrapState { lines: st.lines.push(cur2), cur: Seq::empty() };
            lemma_pack_chunks_content(st1, rest.skip(k), width);
            reveal(Seq::filter);
            assert(visible(Seq::<char>::empty()) =~= Seq::<char>::empty());
            assert(st.lines.push(cur2).flatten() == st.lines.flatten() + cur2);
            assert(state_content(st1) =~= state_content(st) + chunk);
            assert(chunk + rest.skip(k) =~= rest);
            assert(state_content(pack_chunks(st, rest, width)) =~= state_content(st) + rest);
        } else {
            assert(rest.take(k) =~= rest);
            assert(state_content(pack_chunks(st, rest, width)) =~= state_content(st) + rest);
        }
    }
}

proof fn lemma_wrap_word_content(st: WrapState, w: Seq<char>, width: nat)
    requires
        width >= 1,
        word_chars_ok(w),
    ensures
        state_content(wrap_word(st, w, width)) == state_content(st) + w,
{
    broadcast use Seq::filter_distributes_over_add, Seq::lemma_flatten_push;

    lemma_visible_id(w);
    lemma_visible_one(' ');
    if w.len() <= width {
        if st.cur.len() + w.len() < width {
            if st.cur.len() == 0 {
                reveal(Seq::filter);
                assert(visible(st.cur) =~= Seq::<char>::empty());
                assert(state_content(wrap_word(st, w, width)) =~= state_content(st) + w);
            } else {
                assert(visible(st.cur + seq![' '] + w) == visible(st.cur + seq![' ']) + visible(
                    w,
                ));
                assert(visible(st.cur + seq![' ']) == visible(st.cur) + visible(seq![' ']));
                assert(state_content(wrap_word(st, w, width)) =~= state_content(st) + w);
            }
        } else {
            if st.cur.len() == 0 {
                reveal(Seq::filter);
                assert(visible(st.cur) =~= Seq::<char>::empty());
                assert(state_content(wrap_word(st, w, width)) =~= state_content(st) + w);
            } else {
                assert(st.lines.push(st.cur).flatten() == st.lines.flatten() + st.cur);
                assert(state_content(wrap_word(st, w, width)) =~= state_content(st) + w);
            }
        }
    } else {
        let st1 = if st.cur.len() == 0 {
            st
        } else if st.cur.len() + 1 >= width {
            WrapState { lines: st.lines.push(st.cur), cur: Seq::empty() }
        } else {
            WrapState { lines: st.lines, cur: st.cur + seq![' '] }
        };
        lemma_pack_chunks_content(st1, w, width);
        if st.cur.len() == 0 {
        } else if st.cur.len() + 1 >= width {
            reveal(Seq::filter);
            assert(visible(Seq::<char>::empty()) =~= Seq::<char>::empty());
            assert(st.lines.push(st.cur).flatten() == st.lines.flatten() + st.cur);
            assert(state_content(st1) =~= state_content(st));
        } else {
            assert(visible(st.cur + seq![' ']) == visible(st.cur) + visible(seq![' ']));
            assert(state_content(st1) =~= state_content(st));
        }
    }
}

proof fn lemma_wrap_fold_content(st: WrapState, ws: Seq<Seq<char>>, width: nat)
    requires
        width >= 1,
        forall|k: int| 0 <= k < ws.len() ==> word_chars_ok(#[trigger] ws[k]),
    ensures
        state_content(wrap_fold(st, ws, width)) == state_content(st) + ws.flatten(),
    decreases ws.len(),
{
    broadcast use Seq::lemma_flatten_push;

    if ws.len() == 0 {
        assert(state_content(st) + ws.flatten() =~= state_content(st));
    } else {
        lemma_wrap_fold_content(st, ws.drop_last(), width);
        assert(ws.last() == ws[ws.len() - 1]);
        lemma_wrap_word_content(wrap_fold(st, ws.drop_last(), width), ws.last(), width);
        assert(ws.drop_last().push(ws.last()) =~= ws);
        assert(ws.drop_last().push(ws.last()).flatten() == ws.drop_last().flatten() + ws.last());
        assert(state_content(wrap_fold(st, ws, width)) =~= state_content(st) + ws.flatten());
    }
}

/// Run together, the wrapped lines hold exactly the non-whitespace
/// codepoints of the input, in order: wrapping drops, reorders and
/// alters no word, and adds nothing but separating spaces.
pub proof fn lemma_wrap_lines_preserve_content(s: Seq<char>, width: nat)
    requires
        width >= 1,
    ensures
        visible(wrap_lines(s, width).flatten()) == visible(s),
{
    broadcast use Seq::filter_distributes_over_add, Seq::lemma_flatten_push;

    let init = WrapState { lines: Seq::empty(), cur: Seq::empty() };
    let st = wrap_fold(init, words_of(s), width);
    lemma_words_nonspace(s);
    lemma_words_flatten(s);
    lemma_wrap_fold_content(init, words_of(s), width);
    reveal(Seq::filter);
    assert(Seq::<Seq<char>>::empty().flatten() =~= Seq::<char>::empty());
    assert(visible(Seq::<char>::empty()) =~= Seq::<char>::empty());
    assert(state_content(init) =~= Seq::<char>::empty());
    assert(state_content(st) == words_of(s).flatten());
    if st.cur.len() == 0 {
        assert(visible(st.cur) =~= Seq::<char>::empty());
        assert(visible(wrap_lines(s, width).flatten()) =~= visible(s));
    } else {
        assert(st.lines.push(st.cur).flatten() == st.lines.flatten() + st.cur);
        assert(visible(wrap_lines(s, width).flatten()) =~= visible(s));
    }
}

/// Every line of the wrapped output holds at most `width` codepoints.
pub proof fn lemma_wrap_lines_within_width(s: Seq<char>, width: nat)
    requires
        width >= 1,
    ensures
        forall|i: int|
            0 <= i < wrap_lines(s, width).len() ==> (#[trigger] wrap_lines(s, width)[i]).len()
                <= width,
{
    lemma_words_nonempty(s);
    lemma_wrap_fold_good(
        WrapState { lines: Seq::empty(), cur: Seq::empty() },
        words_of(s),
        width,
    );
}

/// No line of the wrapped output is empty.
pub proof fn lemma_wrap_lines_nonempty(s: Seq<char>, width: nat)
    requires
        width >= 1,
    ensures
        forall|i: int|
            0 <= i < wrap_lines(s, width).len() ==> (#[trigger] wrap_lines(s, width)[i]).len()
                >= 1,
{
    lemma_words_nonempty(s);
    lemma_wrap_fold_good(
        WrapState { lines: Seq::empty(), cur: Seq::empty() },
        words_of(s),
        width,
    );
}

/// The wrapped output is empty exactly when the input has no
/// non-whitespace codepoint.
pub proof fn lemma_wrap_lines_empty_iff_blank(s: Seq<char>, width: nat)
    requires
        width >= 1,
    ensures
        wrap_lines(s, width).len() == 0 <==> (forall|i: int|
            0 <= i < s.len() ==> is_space(#[trigger] s[i])),
{
    lemma_words_empty_iff_blank(s);
    lemma_words_nonempty(s);
    lemma_wrap_fold_good(
        WrapState { lines: Seq::empty(), cur: Seq::empty() },
        words_of(s),
        width,
    );
}

} // verus!
