//! Text normalization: drop ASCII punctuation, map newline and tab to a
//! space, lower-case everything else (keeping the first character of a
//! one-to-many lowering), then collapse whitespace runs to single spaces and
//! trim the ends.

use vstd::prelude::*;
use crate::chars::{ascii_punct, is_ascii_punct, is_white, lower_first, lower_first_of, white_char};
use crate::strings::{chars_to_string, str_chars};

verus! {

/// What one character becomes: dropped (ASCII punctuation), a space (newline
/// or tab), or the first character of its lowercase mapping.
pub open spec fn map_char(c: char) -> Option<char> {
    if is_ascii_punct(c) {
        None
    } else if c == '\n' || c == '\t' {
        Some(' ')
    } else {
        Some(lower_first_of(c))
    }
}

/// The character-wise pass over a text: each character dropped or replaced
/// per `map_char`, order kept.
pub open spec fn mapped(s: Seq<char>) -> Seq<char>
    decreases s.len(),
{
    if s.len() == 0 {
        Seq::empty()
    } else {
        mapped(s.drop_last()) + match map_char(s.last()) {
            None => Seq::empty(),
            Some(d) => seq![d],
        }
    }
}

/// The maximal runs of non-whitespace characters of `s`, read left to right
/// with `cur` the run in progress.
pub open spec fn words_rec(s: Seq<char>, cur: Seq<char>) -> Seq<Seq<char>>
    decreases s.len(),
{
    if s.len() == 0 {
        if cur.len() == 0 {
            Seq::empty()
        } else {
            seq![cur]
        }
    } else if is_white(s[0]) {
        if cur.len() == 0 {
            words_rec(s.drop_first(), Seq::empty())
        } else {
            seq![cur] + words_rec(s.drop_first(), Seq::empty())
        }
    } else {
        words_rec(s.drop_first(), cur.push(s[0]))
    }
}

/// The maximal runs of non-whitespace characters of `s`.
pub open spec fn ws_words(s: Seq<char>) -> Seq<Seq<char>> {
    words_rec(s, Seq::empty())
}

/// The words joined by single spaces.
pub open spec fn join_words(ws: Seq<Seq<char>>) -> Seq<char>
    decreases ws.len(),
{
    if ws.len() == 0 {
        Seq::empty()
    } else if ws.len() == 1 {
        ws[0]
    } else {
        ws[0] + seq![' '] + join_words(ws.drop_first())
    }
}

/// Whitespace collapsed to single spaces, leading and trailing whitespace
/// removed.
pub open spec fn collapse_ws(s: Seq<char>) -> Seq<char> {
    join_words(ws_words(s))
}

/// The normalized form of a text: the character-wise pass, then the
/// whitespace collapse.
pub open spec fn normalize_spec(s: Seq<char>) -> Seq<char> {
    collapse_ws(mapped(s))
}

/// Joining one more word appends a separating space unless it is the first.
proof fn lemma_join_push(ws: Seq<Seq<char>>, w: Seq<char>)
    ensures
        ws.len() == 0 ==> join_words(ws.push(w)) == w,
        ws.len() > 0 ==> join_words(ws.push(w)) == join_words(ws) + seq![' '] + w,
    decreases ws.len(),
{
    if ws.len() == 0 {
        assert(join_words(ws.push(w)) == ws.push(w)[0]);
        assert(ws.push(w)[0] == w);
    } else if ws.len() == 1 {
        assert(ws.push(w).drop_first() =~= ws.drop_first().push(w));
        lemma_join_push(ws.drop_first(), w);
        assert(join_words(ws.push(w)) == ws[0] + seq![' '] + w);
        assert(join_words(ws) == ws[0]);
    } else {
        assert(ws.push(w).drop_first() =~= ws.drop_first().push(w));
        lemma_join_push(ws.drop_first(), w);
        assert(join_words(ws.push(w)) == ws[0] + seq![' '] + (join_words(ws.drop_first())
            + seq![' '] + w));
        assert(ws[0] + seq![' '] + (join_words(ws.drop_first()) + seq![' '] + w) =~= (ws[0]
            + seq![' '] + join_words(ws.drop_first())) + seq![' '] + w);
    }
}

/// A character the character-wise pass can no longer change: ASCII, not
/// punctuation, not an uppercase letter.
pub open spec fn settled_char(c: char) -> bool {
    (c as u32) <= 127 && !is_ascii_punct(c) && !(0x41 <= (c as u32) && (c as u32) <= 0x5a)
}

/// On an ASCII text, every character the character-wise pass keeps is
/// settled.
proof fn lemma_mapped_settled(s: Seq<char>)
    requires
        forall|i: int| 0 <= i < s.len() ==> (s[i] as u32) <= 127,
    ensures
        forall|i: int| 0 <= i < mapped(s).len() ==> settled_char(mapped(s)[i]),
    decreases s.len(),
{
    if s.len() > 0 {
        assert(forall|i: int|
            0 <= i < s.drop_last().len() ==> (s.drop_last()[i] as u32) <= 127);
        lemma_mapped_settled(s.drop_last());
        assert forall|i: int| 0 <= i < mapped(s).len() implies settled_char(mapped(s)[i]) by {
            if i < mapped(s.drop_last()).len() {
                assert(mapped(s)[i] == mapped(s.drop_last())[i]);
            } else {
                assert(map_char(s.last()) is Some);
                assert(mapped(s)[i] == map_char(s.last())->Some_0);
            }
        }
    }
}

/// Every gathered word is non-empty.
proof fn lemma_words_nonempty(t: Seq<char>, cur: Seq<char>)
    ensures
        forall|wi: int|
            0 <= wi < words_rec(t, cur).len() ==> (#[trigger] words_rec(t, cur)[wi]).len() > 0,
    decreases t.len(),
{
    if t.len() == 0 {
        if cur.len() > 0 {
            assert(words_rec(t, cur) == seq![cur]);
            assert(words_rec(t, cur)[0] == cur);
        }
    } else if is_white(t[0]) {
        lemma_words_nonempty(t.drop_first(), Seq::empty());
        if cur.len() == 0 {
            assert(words_rec(t, cur) == words_rec(t.drop_first(), Seq::<char>::empty()));
        }
        if cur.len() > 0 {
            assert forall|wi: int|
                0 <= wi < words_rec(t, cur).len() implies (#[trigger] words_rec(t, cur)[wi]).len()
                > 0 by {
                if wi == 0 {
                    assert(words_rec(t, cur)[0] == cur);
                } else {
                    assert(words_rec(t, cur)[wi] == words_rec(t.drop_first(), Seq::empty())[wi
                        - 1]);
                }
            }
        }
    } else {
        lemma_words_nonempty(t.drop_first(), cur.push(t[0]));
        assert(words_rec(t, cur) == words_rec(t.drop_first(), cur.push(t[0])));
        assert forall|wi: int|
            0 <= wi < words_rec(t, cur).len() implies (#[trigger] words_rec(t, cur)[wi]).len()
            > 0 by {
            assert(words_rec(t, cur)[wi] == words_rec(t.drop_first(), cur.push(t[0]))[wi]);
        }
    }
}

/// Every character of every gathered word is a settled non-whitespace
/// character, provided the text's characters are settled and the run in
/// progress holds only settled non-whitespace characters.
proof fn lemma_words_chars(t: Seq<char>, cur: Seq<char>)
    requires
        forall|i: int| 0 <= i < t.len() ==> settled_char(t[i]),
        forall|i: int| 0 <= i < cur.len() ==> settled_char(cur[i]) && !is_white(cur[i]),
    ensures
        forall|wi: int, ci: int|
            0 <= wi < words_rec(t, cur).len() && 0 <= ci < words_rec(t, cur)[wi].len()
                ==> settled_char(#[trigger] words_rec(t, cur)[wi][ci]) && !is_white(
                words_rec(t, cur)[wi][ci],
            ),
    decreases t.len(),
{
    if t.len() == 0 {
    } else if is_white(t[0]) {
        lemma_words_chars(t.drop_first(), Seq::empty());
        if cur.len() == 0 {
            assert(words_rec(t, cur) == words_rec(t.drop_first(), Seq::<char>::empty()));
        }
        if cur.len() > 0 {
            assert forall|wi: int, ci: int|
                0 <= wi < words_rec(t, cur).len() && 0 <= ci < words_rec(t, cur)[wi].len() implies
                settled_char(#[trigger] words_rec(t, cur)[wi][ci]) && !is_white(
                words_rec(t, cur)[wi][ci],
            ) by {
                if wi == 0 {
                    assert(words_rec(t, cur)[0] == cur);
                } else {
                    assert(words_rec(t, cur)[wi] == words_rec(t.drop_first(), Seq::empty())[wi
                        - 1]);
                }
            }
        }
    } else {
        assert(forall|i: int|
            0 <= i < cur.push(t[0]).len() ==> settled_char(#[trigger] cur.push(t[0])[i])
                && !is_white(cur.push(t[0])[i]));
        lemma_words_chars(t.drop_first(), cur.push(t[0]));
        assert(words_rec(t, cur) == words_rec(t.drop_first(), cur.push(t[0])));
    }
}

/// Every character of the joined text is left unchanged by the
/// character-wise pass, provided every word character is settled and
/// non-whitespace.
proof fn lemma_join_chars(ws: Seq<Seq<char>>)
    requires
        forall|wi: int, ci: int|
            0 <= wi < ws.len() && 0 <= ci < ws[wi].len() ==> settled_char(#[trigger] ws[wi][ci])
                && !is_white(ws[wi][ci]),
    ensures
        forall|i: int|
            0 <= i < join_words(ws).len() ==> map_char(#[trigger] join_words(ws)[i]) == Some(
                join_words(ws)[i],
            ),
    decreases ws.len(),
{
    if ws.len() == 0 {
    } else if ws.len() == 1 {
        assert forall|i: int| 0 <= i < join_words(ws).len() implies map_char(
            #[trigger] join_words(ws)[i],
        ) == Some(join_words(ws)[i]) by {
            assert(join_words(ws)[i] == ws[0][i]);
        }
    } else {
        lemma_join_chars(ws.drop_first());
        assert forall|i: int| 0 <= i < join_words(ws).len() implies map_char(
            #[trigger] join_words(ws)[i],
        ) == Some(join_words(ws)[i]) by {
            let head = ws[0] + seq![' '];
            if i < ws[0].len() {
                assert(join_words(ws)[i] == ws[0][i]);
            } else if i == ws[0].len() {
                assert(join_words(ws)[i] == ' ');
            } else {
                assert(join_words(ws)[i] == join_words(ws.drop_first())[i - head.len()]);
            }
        }
    }
}

/// The character-wise pass leaves a text alone when it leaves every
/// character alone.
proof fn lemma_mapped_id(y: Seq<char>)
    requires
        forall|i: int| 0 <= i < y.len() ==> map_char(#[trigger] y[i]) == Some(y[i]),
    ensures
        mapped(y) == y,
    decreases y.len(),
{
    if y.len() == 0 {
        assert(mapped(y) =~= y);
    } else {
        assert(forall|i: int|
            0 <= i < y.drop_last().len() ==> map_char(#[trigger] y.drop_last()[i]) == Some(
                y.drop_last()[i],
            ));
        lemma_mapped_id(y.drop_last());
        assert(mapped(y) =~= y);
    }
}

/// Gathering words walks straight through a run of non-whitespace
/// characters.
proof fn lemma_words_rec_nonwhite_prefix(w: Seq<char>, s: Seq<char>, cur: Seq<char>)
    requires
        forall|i: int| 0 <= i < w.len() ==> !is_white(w[i]),
    ensures
        words_rec(w + s, cur) == words_rec(s, cur + w),
    decreases w.len(),
{
    if w.len() == 0 {
        assert(w + s =~= s);
        assert(cur + w =~= cur);
    } else {
        assert((w + s)[0] == w[0]);
        assert((w + s).len() > 0);
        assert(!is_white((w + s)[0]));
        assert((w + s).drop_first() =~= w.drop_first() + s);
        assert(forall|i: int| 0 <= i < w.drop_first().len() ==> !is_white(w.drop_first()[i]));
        lemma_words_rec_nonwhite_prefix(w.drop_first(), s, cur.push(w[0]));
        assert(cur.push(w[0]) + w.drop_first() =~= cur + w);
    }
}

/// Gathering the words of a joined word list gives the list back, provided
/// every word is non-empty and free of whitespace.
proof fn lemma_words_of_join(ws: Seq<Seq<char>>)
    requires
        forall|wi: int| 0 <= wi < ws.len() ==> #[trigger] ws[wi].len() > 0,
        forall|wi: int, ci: int|
            0 <= wi < ws.len() && 0 <= ci < ws[wi].len() ==> !is_white(#[trigger] ws[wi][ci]),
    ensures
        ws_words(join_words(ws)) == ws,
    decreases ws.len(),
{
    if ws.len() == 0 {
        assert(ws_words(join_words(ws)) =~= ws);
    } else if ws.len() == 1 {
        let w = ws[0];
        assert(w =~= w + Seq::<char>::empty());
        lemma_words_rec_nonwhite_prefix(w, Seq::empty(), Seq::empty());
        assert(Seq::<char>::empty() + w =~= w);
        assert(words_rec(Seq::<char>::empty(), w) == seq![w]);
        assert(ws_words(join_words(ws)) =~= ws);
    } else {
        let w = ws[0];
        let rest = join_words(ws.drop_first());
        assert(join_words(ws) == w + seq![' '] + rest);
        assert(w + seq![' '] + rest =~= w + (seq![' '] + rest));
        lemma_words_rec_nonwhite_prefix(w, seq![' '] + rest, Seq::empty());
        assert(Seq::<char>::empty() + w =~= w);
        let tail = seq![' '] + rest;
        assert(tail[0] == ' ');
        assert(is_white(' '));
        assert(tail.len() > 0);
        assert(words_rec(tail, w) == seq![w] + words_rec(tail.drop_first(), Seq::empty()));
        assert(tail.drop_first() =~= rest);
        assert(forall|wi: int|
            0 <= wi < ws.drop_first().len() ==> #[trigger] ws.drop_first()[wi].len() > 0);
        assert(forall|wi: int, ci: int|
            0 <= wi < ws.drop_first().len() && 0 <= ci < ws.drop_first()[wi].len() ==> !is_white(
                #[trigger] ws.drop_first()[wi][ci],
            ));
        lemma_words_of_join(ws.drop_first());
        assert(seq![w] + ws.drop_first() =~= ws);
    }
}

/// Every character of every gathered word is non-whitespace, provided the
/// run in progress holds none.
proof fn lemma_words_nonwhite(t: Seq<char>, cur: Seq<char>)
    requires
        forall|i: int| 0 <= i < cur.len() ==> !is_white(cur[i]),
    ensures
        forall|wi: int, ci: int|
            0 <= wi < words_rec(t, cur).len() && 0 <= ci < words_rec(t, cur)[wi].len()
                ==> !is_white(#[trigger] words_rec(t, cur)[wi][ci]),
    decreases t.len(),
{
    if t.len() == 0 {
    } else if is_white(t[0]) {
        lemma_words_nonwhite(t.drop_first(), Seq::empty());
        if cur.len() == 0 {
            assert(words_rec(t, cur) == words_rec(t.drop_first(), Seq::<char>::empty()));
        }
        if cur.len() > 0 {
            assert forall|wi: int, ci: int|
                0 <= wi < words_rec(t, cur).len() && 0 <= ci < words_rec(t, cur)[wi].len() implies
                !is_white(#[trigger] words_rec(t, cur)[wi][ci]) by {
                if wi == 0 {
                    assert(words_rec(t, cur)[0] == cur);
                } else {
                    assert(words_rec(t, cur)[wi] == words_rec(t.drop_first(), Seq::empty())[wi
                        - 1]);
                }
            }
        }
    } else {
        assert(forall|i: int| 0 <= i < cur.push(t[0]).len() ==> !is_white(cur.push(t[0])[i]));
        lemma_words_nonwhite(t.drop_first(), cur.push(t[0]));
        assert(words_rec(t, cur) == words_rec(t.drop_first(), cur.push(t[0])));
    }
}

/// The whitespace collapse alone is idempotent on every text: collapsing a
/// collapsed text changes nothing.
pub proof fn lemma_collapse_ws_idempotent(s: Seq<char>)
    ensures
        collapse_ws(collapse_ws(s)) == collapse_ws(s),
{
    let ws = ws_words(s);
    lemma_words_nonempty(s, Seq::empty());
    lemma_words_nonwhite(s, Seq::empty());
    lemma_words_of_join(ws);
}

/// Normalization is idempotent on ASCII texts: normalizing a text that is
/// already normalized changes nothing.
pub proof fn lemma_normalize_idempotent_ascii(s: Seq<char>)
    requires
        forall|i: int| 0 <= i < s.len() ==> (s[i] as u32) <= 127,
    ensures
        normalize_spec(normalize_spec(s)) == normalize_spec(s),
{
    let t = mapped(s);
    let ws = ws_words(t);
    let y = join_words(ws);
    lemma_mapped_settled(s);
    lemma_words_nonempty(t, Seq::empty());
    lemma_words_chars(t, Seq::empty());
    lemma_join_chars(ws);
    lemma_mapped_id(y);
    lemma_words_of_join(ws);
}

/// Normalizes a text: drops ASCII punctuation, maps newline and tab to
/// spaces, lower-cases the rest, collapses whitespace runs to single spaces
/// and trims the ends. Always returns a (possibly empty) string.
pub fn normalize_text(text: &str) -> (r: String)
    ensures
        r@ == normalize_spec(text@),
{
    let cs = str_chars(text);
    let mut m: Vec<char> = Vec::new();
    let mut i: usize = 0;
    while i < cs.len()
        invariant
            i <= cs.len(),
            cs@ == text@,
            m@ == mapped(text@.subrange(0, i as int)),
        decreases cs.len() - i,
    {
        proof {
            assert(text@.subrange(0, i + 1 as int).drop_last() =~= text@.subrange(0, i as int));
            assert(text@.subrange(0, i + 1 as int).last() == text@[i as int]);
        }
        let c = cs[i];
        if ascii_punct(c) {
            proof {
                assert(m@ =~= mapped(text@.subrange(0, i + 1 as int)));
            }
        } else if c == '\n' || c == '\t' {
            m.push(' ');
            proof {
                assert(m@ =~= mapped(text@.subrange(0, i + 1 as int)));
            }
        } else {
            let d = lower_first(c);
            m.push(d);
            proof {
                assert(m@ =~= mapped(text@.subrange(0, i + 1 as int)));
            }
        }
        i = i + 1;
    }
    proof {
        assert(text@.subrange(0, text@.len() as int) =~= text@);
    }
    let ghost mseq = m@;

    // Gather the maximal non-whitespace runs.
    let mut words: Vec<Vec<char>> = Vec::new();
    let mut cur: Vec<char> = Vec::new();
    proof {
        assert(mseq.skip(0) =~= mseq);
        assert(words@.map_values(|w: Vec<char>| w@) =~= Seq::<Seq<char>>::empty());
        assert(Seq::<Seq<char>>::empty() + words_rec(mseq, Seq::empty()) =~= words_rec(
            mseq,
            Seq::empty(),
        ));
        assert(cur@ =~= Seq::<char>::empty());
    }
    let mut j: usize = 0;
    while j < m.len()
        invariant
            j <= m.len(),
            m@ == mseq,
            ws_words(mseq) == words@.map_values(|w: Vec<char>| w@) + words_rec(
                mseq.skip(j as int),
                cur@,
            ),
        decreases m.len() - j,
    {
        proof {
            assert(mseq.skip(j as int)[0] == mseq[j as int]);
            assert(mseq.skip(j as int).drop_first() =~= mseq.skip(j + 1 as int));
        }
        let c = m[j];
        if white_char(c) {
            if cur.len() == 0 {
                proof {
                    assert(cur@ =~= Seq::<char>::empty());
                }
            }
            if cur.len() > 0 {
                let ghost old_words = words@.map_values(|w: Vec<char>| w@);
                let ghost curv = cur@;
                words.push(cur);
                cur = Vec::new();
                proof {
                    assert(words@.map_values(|w: Vec<char>| w@) =~= old_words.push(curv));
                    assert(old_words + (seq![curv] + words_rec(mseq.skip(j + 1 as int), Seq::empty()))
                        =~= old_words.push(curv) + words_rec(mseq.skip(j + 1 as int), Seq::empty()));
                }
            }
        } else {
            cur.push(c);
        }
        j = j + 1;
    }
    proof {
        assert(mseq.skip(m.len() as int) =~= Seq::<char>::empty());
    }
    if cur.len() > 0 {
        let ghost old_words = words@.map_values(|w: Vec<char>| w@);
        let ghost curv = cur@;
        words.push(cur);
        proof {
            assert(words@.map_values(|w: Vec<char>| w@) =~= old_words.push(curv));
            assert(old_words + seq![curv] =~= old_words.push(curv));
        }
    }
    let ghost wseq = words@.map_values(|w: Vec<char>| w@);
    proof {
        assert(ws_words(mseq) == wseq);
    }

    // Join the words with single spaces.
    let mut out: Vec<char> = Vec::new();
    proof {
        assert(wseq.subrange(0, 0) =~= Seq::<Seq<char>>::empty());
    }
    let mut k: usize = 0;
    while k < words.len()
        invariant
            k <= words.len(),
            wseq == words@.map_values(|w: Vec<char>| w@),
            out@ == join_words(wseq.subrange(0, k as int)),
        decreases words.len() - k,
    {
        proof {
            assert(wseq.subrange(0, k + 1 as int) =~= wseq.subrange(0, k as int).push(
                wseq[k as int],
            ));
            lemma_join_push(wseq.subrange(0, k as int), wseq[k as int]);
        }
        if k > 0 {
            out.push(' ');
        }
        let w = &words[k];
        let mut t: usize = 0;
        let ghost out_before = out@;
        while t < w.len()
            invariant
                t <= w.len(),
                w@ == wseq[k as int],
                out@ == out_before + wseq[k as int].subrange(0, t as int),
            decreases w.len() - t,
        {
            out.push(w[t]);
            proof {
                assert(out_before + wseq[k as int].subrange(0, t + 1 as int) =~= (out_before
                    + wseq[k as int].subrange(0, t as int)).push(wseq[k as int][t as int]));
            }
            t = t + 1;
        }
        proof {
            assert(wseq[k as int].subrange(0, wseq[k as int].len() as int) =~= wseq[k as int]);
            if k == 0 {
                assert(out@ =~= join_words(wseq.subrange(0, k + 1 as int)));
            } else {
                assert(out@ =~= join_words(wseq.subrange(0, k + 1 as int)));
            }
        }
        k = k + 1;
    }
    proof {
        assert(wseq.subrange(0, wseq.len() as int) =~= wseq);
    }
    chars_to_string(&out)
}

} // verus!
