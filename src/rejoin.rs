//! Wrapping loses no word: joining the wrapped lines with single spaces
//! and splitting again gives back the words of the text, empty words aside.

use vstd::prelude::*;
use crate::layout::{needed, pack_words, split_words, wrap_to_width};

verus! {

/// The words of `ws` that are not empty, in order.
pub open spec fn nonempty_words(ws: Seq<Seq<char>>) -> Seq<Seq<char>>
    decreases ws.len(),
{
    if ws.len() == 0 {
        ws
    } else {
        let pre = nonempty_words(ws.drop_last());
        if ws.last().len() > 0 {
            pre.push(ws.last())
        } else {
            pre
        }
    }
}

/// Words joined by single spaces.
pub open spec fn join_words(ws: Seq<Seq<char>>) -> Seq<char>
    decreases ws.len(),
{
    if ws.len() == 0 {
        Seq::empty()
    } else if ws.len() == 1 {
        ws[0]
    } else {
        join_words(ws.drop_last()) + seq![' '] + ws.last()
    }
}

pub open spec fn no_space(w: Seq<char>) -> bool {
    forall|i: int| 0 <= i < w.len() ==> w[i] != ' '
}

pub open spec fn all_no_space(ws: Seq<Seq<char>>) -> bool {
    forall|i: int| 0 <= i < ws.len() ==> no_space(#[trigger] ws[i])
}

/// The groups of words, in order, as one sequence of words.
pub open spec fn concat_all(gs: Seq<Seq<Seq<char>>>) -> Seq<Seq<char>>
    decreases gs.len(),
{
    if gs.len() == 0 {
        Seq::empty()
    } else {
        concat_all(gs.drop_last()) + gs.last()
    }
}

/// The words that an open line holds after receiving `word` on an empty line.
pub open spec fn start_group(word: Seq<char>) -> Seq<Seq<char>> {
    if word.len() == 0 {
        Seq::empty()
    } else {
        seq![word]
    }
}

/// The words that make up each line of `pack_words`, and those of the open line.
pub open spec fn pack_groups(words: Seq<Seq<char>>, width: nat) -> (
    Seq<Seq<Seq<char>>>,
    Seq<Seq<char>>,
)
    decreases words.len(),
{
    if words.len() == 0 {
        (Seq::empty(), Seq::empty())
    } else {
        let cur = pack_words(words.drop_last(), width).1;
        let gs = pack_groups(words.drop_last(), width);
        let word = words.last();
        if needed(cur, word) > width {
            if cur.len() == 0 {
                (gs.0.push(seq![word]), gs.1)
            } else {
                (gs.0.push(gs.1), start_group(word))
            }
        } else if cur.len() == 0 {
            (gs.0, start_group(word))
        } else {
            (gs.0, gs.1.push(word))
        }
    }
}

proof fn lemma_nonempty_words_add(a: Seq<Seq<char>>, b: Seq<Seq<char>>)
    ensures
        nonempty_words(a + b) == nonempty_words(a) + nonempty_words(b),
    decreases b.len(),
{
    if b.len() == 0 {
        assert(a + b =~= a);
        assert(nonempty_words(a) + nonempty_words(b) =~= nonempty_words(a));
    } else {
        lemma_nonempty_words_add(a, b.drop_last());
        assert((a + b).drop_last() =~= a + b.drop_last());
        if b.last().len() > 0 {
            assert(nonempty_words(a) + nonempty_words(b.drop_last()).push(b.last()) =~= (
            nonempty_words(a) + nonempty_words(b.drop_last())).push(b.last()));
        }
    }
}

proof fn lemma_split_words_no_space(s: Seq<char>)
    ensures
        all_no_space(split_words(s)),
        split_words(s).len() >= 1,
    decreases s.len(),
{
    if s.len() > 0 {
        lemma_split_words_no_space(s.drop_last());
        let pre = split_words(s.drop_last());
        if s.last() != ' ' {
            let w = pre.last().push(s.last());
            assert(no_space(w)) by {
                assert(no_space(pre[pre.len() - 1]));
            }
            let r = split_words(s);
            assert forall|i: int| 0 <= i < r.len() implies no_space(#[trigger] r[i]) by {
                if i < pre.len() - 1 {
                    assert(r[i] == pre[i]);
                }
            }
        } else {
            let r = split_words(s);
            assert forall|i: int| 0 <= i < r.len() implies no_space(#[trigger] r[i]) by {
                if i < pre.len() {
                    assert(r[i] == pre[i]);
                }
            }
        }
    }
}

proof fn lemma_split_words_append(s: Seq<char>, t: Seq<char>)
    requires
        no_space(t),
    ensures
        split_words(s + t) == split_words(s).update(
            split_words(s).len() - 1,
            split_words(s).last() + t,
        ),
    decreases t.len(),
{
    crate::layout::lemma_split_words_nonempty(s);
    let ws = split_words(s);
    if t.len() == 0 {
        assert(s + t =~= s);
        assert(ws.last() + t =~= ws.last());
        assert(ws.update(ws.len() - 1, ws.last() + t) =~= ws);
    } else {
        let t1 = t.drop_last();
        assert(no_space(t1)) by {
            assert forall|i: int| 0 <= i < t1.len() implies t1[i] != ' ' by {
                assert(t1[i] == t[i]);
            }
        }
        lemma_split_words_append(s, t1);
        assert((s + t).drop_last() =~= s + t1);
        assert((s + t).last() == t.last());
        assert(t.last() != ' ') by {
            assert(t[t.len() - 1] != ' ');
        }
        assert((ws.last() + t1).push(t.last()) =~= ws.last() + t);
        assert(split_words(s + t) =~= ws.update(ws.len() - 1, ws.last() + t));
    }
}

proof fn lemma_split_join(ws: Seq<Seq<char>>)
    requires
        ws.len() >= 1,
        all_no_space(ws),
    ensures
        split_words(join_words(ws)) == ws,
    decreases ws.len(),
{
    let e = Seq::<char>::empty();
    if ws.len() == 1 {
        assert(no_space(ws[0]));
        lemma_split_words_append(e, ws[0]);
        assert(e + ws[0] =~= ws[0]);
        assert(split_words(e) =~= seq![e]);
        assert(split_words(join_words(ws)) =~= ws);
    } else {
        let pre = ws.drop_last();
        assert(all_no_space(pre)) by {
            assert forall|i: int| 0 <= i < pre.len() implies no_space(#[trigger] pre[i]) by {
                assert(pre[i] == ws[i]);
            }
        }
        lemma_split_join(pre);
        let j = join_words(pre).push(' ');
        assert(join_words(pre) + seq![' '] =~= j);
        assert(j.drop_last() =~= join_words(pre));
        assert(split_words(j) == pre.push(e));
        assert(no_space(ws.last())) by {
            assert(no_space(ws[ws.len() - 1]));
        }
        lemma_split_words_append(j, ws.last());
        assert(e + ws.last() =~= ws.last());
        assert(pre.push(e).update(pre.len() as int, e + ws.last()) =~= ws);
    }
}

proof fn lemma_join_concat(a: Seq<Seq<char>>, b: Seq<Seq<char>>)
    requires
        a.len() >= 1,
        b.len() >= 1,
    ensures
        join_words(a + b) == join_words(a) + seq![' '] + join_words(b),
    decreases b.len(),
{
    if b.len() == 1 {
        assert((a + b).drop_last() =~= a);
        assert((a + b).last() == b[0]);
    } else {
        let b1 = b.drop_last();
        lemma_join_concat(a, b1);
        assert((a + b).drop_last() =~= a + b1);
        assert((a + b).last() == b.last());
        assert(join_words(a) + seq![' '] + join_words(b1) + seq![' '] + b.last() =~= join_words(a)
            + seq![' '] + (join_words(b1) + seq![' '] + b.last()));
    }
}

proof fn lemma_join_groups(gs: Seq<Seq<Seq<char>>>)
    requires
        forall|i: int| 0 <= i < gs.len() ==> (#[trigger] gs[i]).len() >= 1,
    ensures
        join_words(gs.map_values(|g: Seq<Seq<char>>| join_words(g))) == join_words(concat_all(gs)),
        concat_all(gs).len() >= gs.len(),
    decreases gs.len(),
{
    let f = |g: Seq<Seq<char>>| join_words(g);
    if gs.len() == 1 {
        assert(gs.map_values(f) =~= seq![join_words(gs[0])]);
        assert(concat_all(gs) =~= gs[0]);
    } else if gs.len() > 1 {
        let pre = gs.drop_last();
        assert forall|i: int| 0 <= i < pre.len() implies (#[trigger] pre[i]).len() >= 1 by {
            assert(pre[i] == gs[i]);
        }
        lemma_join_groups(pre);
        assert(gs.map_values(f).drop_last() =~= pre.map_values(f));
        assert(gs.last().len() >= 1) by {
            assert(gs[gs.len() - 1].len() >= 1);
        }
        lemma_join_concat(concat_all(pre), gs.last());
    }
}

proof fn lemma_pack_groups(words: Seq<Seq<char>>, width: nat)
    requires
        all_no_space(words),
    ensures
        pack_words(words, width).0.len() == pack_groups(words, width).0.len(),
        forall|i: int|
            0 <= i < pack_words(words, width).0.len() ==> #[trigger] pack_words(words, width).0[i]
                == join_words(pack_groups(words, width).0[i]) && pack_groups(words, width).0[i].len()
                >= 1,
        pack_words(words, width).1 == join_words(pack_groups(words, width).1),
        pack_words(words, width).1.len() == 0 ==> pack_groups(words, width).1.len() == 0,
        all_no_space(concat_all(pack_groups(words, width).0) + pack_groups(words, width).1),
        nonempty_words(concat_all(pack_groups(words, width).0) + pack_groups(words, width).1)
            == nonempty_words(words),
    decreases words.len(),
{
    if words.len() == 0 {
        assert(concat_all(Seq::<Seq<Seq<char>>>::empty()) + Seq::<Seq<char>>::empty() =~= words);
    } else {
        let pre = words.drop_last();
        assert(all_no_space(pre)) by {
            assert forall|i: int| 0 <= i < pre.len() implies no_space(#[trigger] pre[i]) by {
                assert(pre[i] == words[i]);
            }
        }
        lemma_pack_groups(pre, width);
        let st0 = pack_words(pre, width);
        let gs0 = pack_groups(pre, width);
        let st = pack_words(words, width);
        let gs = pack_groups(words, width);
        let word = words.last();
        let old_all = concat_all(gs0.0) + gs0.1;
        assert(no_space(word)) by {
            assert(no_space(words[words.len() - 1]));
        }
        assert(join_words(start_group(word)) == word) by {
            if word.len() == 0 {
                assert(word =~= Seq::<char>::empty());
            }
        }
        assert(seq![word].drop_last() =~= Seq::<Seq<char>>::empty());
        assert(nonempty_words(start_group(word)) == nonempty_words(seq![word]));
        lemma_nonempty_words_add(old_all, seq![word]);
        assert(old_all + seq![word] =~= old_all.push(word));
        if needed(st0.1, word) > width {
            if st0.1.len() == 0 {
                assert(gs0.1 =~= Seq::<Seq<char>>::empty());
                assert(gs.0.drop_last() =~= gs0.0);
                assert(concat_all(gs.0) + gs.1 =~= old_all.push(word));
                assert(join_words(seq![word]) == word);
            } else {
                assert(gs.0.drop_last() =~= gs0.0);
                assert(concat_all(gs.0) + gs.1 =~= old_all + start_group(word));
                lemma_nonempty_words_add(old_all, start_group(word));
            }
        } else if st0.1.len() == 0 {
            assert(gs0.1 =~= Seq::<Seq<char>>::empty());
            assert(concat_all(gs.0) + gs.1 =~= old_all + start_group(word));
            lemma_nonempty_words_add(old_all, start_group(word));
        } else {
            assert(gs0.1.len() >= 1);
            assert(gs.1.drop_last() =~= gs0.1);
            assert(concat_all(gs.0) + gs.1 =~= old_all.push(word));
        }
        lemma_nonempty_words_add(pre, seq![word]);
        assert(pre + seq![word] =~= words);
        assert forall|i: int| 0 <= i < st.0.len() implies #[trigger] st.0[i] == join_words(gs.0[i])
            && gs.0[i].len() >= 1 by {
            if i < st0.0.len() {
                assert(st.0[i] == st0.0[i]);
                assert(gs.0[i] == gs0.0[i]);
            } else if st0.1.len() == 0 {
                assert(gs.0[i] == seq![word]);
            } else {
                assert(gs.0[i] == gs0.1);
                assert(gs0.1.len() >= 1);
            }
        }
    }
}

/// Joining the wrapped lines with single spaces and splitting the result at
/// spaces gives the non-empty words of the text, in order.
pub proof fn lemma_wrap_rejoins(text: Seq<char>, width: nat)
    ensures
        nonempty_words(split_words(join_words(wrap_to_width(text, width)))) == nonempty_words(
            split_words(text),
        ),
{
    let words = split_words(text);
    lemma_split_words_no_space(text);
    lemma_pack_groups(words, width);
    let st = pack_words(words, width);
    let gs = pack_groups(words, width);
    let groups = if st.1.len() > 0 {
        gs.0.push(gs.1)
    } else {
        gs.0
    };
    let lines = wrap_to_width(text, width);
    let f = |g: Seq<Seq<char>>| join_words(g);
    assert(lines =~= groups.map_values(f));
    if st.1.len() > 0 {
        assert(groups.drop_last() =~= gs.0);
    } else {
        assert(gs.1 =~= Seq::<Seq<char>>::empty());
    }
    assert(concat_all(groups) =~= concat_all(gs.0) + gs.1);
    assert forall|i: int| 0 <= i < groups.len() implies (#[trigger] groups[i]).len() >= 1 by {
        if i < gs.0.len() {
            assert(st.0[i] == join_words(gs.0[i]));
        }
    }
    lemma_join_groups(groups);
    if groups.len() == 0 {
        let e = Seq::<char>::empty();
        assert(split_words(e) =~= seq![e]);
        assert(seq![e].drop_last() =~= Seq::<Seq<char>>::empty());
        assert(nonempty_words(concat_all(groups)) =~= Seq::<Seq<char>>::empty());
    } else {
        lemma_split_join(concat_all(groups));
    }
}

} // verus!
