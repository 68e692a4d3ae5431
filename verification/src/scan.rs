//! Verified byte-sequence splitting, shared by the output parser and the
//! address grammar.

use vstd::prelude::*;

verus! {

/// `s` split at every occurrence of `sep`, empty pieces kept: the shape
/// `str::split` produces.
pub open spec fn split_on(s: Seq<u8>, sep: u8) -> Seq<Seq<u8>>
    decreases s.len(),
{
    if s.len() == 0 {
        seq![Seq::<u8>::empty()]
    } else if s[0] == sep {
        seq![Seq::<u8>::empty()] + split_on(s.drop_first(), sep)
    } else {
        let rest = split_on(s.drop_first(), sep);
        seq![seq![s[0]] + rest[0]] + rest.drop_first()
    }
}

pub proof fn lemma_split_on_len(s: Seq<u8>, sep: u8)
    ensures
        split_on(s, sep).len() >= 1,
    decreases s.len(),
{
    if s.len() != 0 {
        lemma_split_on_len(s.drop_first(), sep);
    }
}

proof fn lemma_split_on_push(s: Seq<u8>, sep: u8, b: u8)
    ensures
        b == sep ==> split_on(s.push(b), sep) =~~= split_on(s, sep).push(Seq::<u8>::empty()),
        b != sep ==> split_on(s.push(b), sep) =~~= split_on(s, sep).update(
            split_on(s, sep).len() - 1,
            split_on(s, sep).last().push(b),
        ),
    decreases s.len(),
{
    lemma_split_on_len(s, sep);
    if s.len() == 0 {
        assert(s.push(b).len() == 1 && s.push(b)[0] == b);
        assert(s.push(b).drop_first() =~= Seq::<u8>::empty());
        if b == sep {
            assert(split_on(s.push(b), sep) =~= seq![Seq::<u8>::empty()] + split_on(
                Seq::<u8>::empty(),
                sep,
            ));
            assert(split_on(s.push(b), sep) =~~= split_on(s, sep).push(Seq::<u8>::empty()));
        } else {
            assert(split_on(s.push(b), sep) =~= seq![seq![b] + split_on(Seq::<u8>::empty(), sep)[0]]
                + split_on(Seq::<u8>::empty(), sep).drop_first());
            assert(split_on(s.push(b), sep) =~~= split_on(s, sep).update(
                split_on(s, sep).len() - 1,
                split_on(s, sep).last().push(b),
            ));
        }
    } else {
        assert(s.push(b)[0] == s[0]);
        assert(s.push(b).drop_first() =~= s.drop_first().push(b));
        lemma_split_on_push(s.drop_first(), sep, b);
        lemma_split_on_len(s.drop_first(), sep);
        let t = s.drop_first();
        let rest = split_on(t, sep);
        let restp = split_on(t.push(b), sep);
        if s[0] == sep {
            assert(split_on(s, sep) =~= seq![Seq::<u8>::empty()] + rest);
            assert(split_on(s.push(b), sep) =~= seq![Seq::<u8>::empty()] + restp);
            if b == sep {
                assert(split_on(s.push(b), sep) =~~= split_on(s, sep).push(Seq::<u8>::empty()));
            } else {
                assert(split_on(s, sep).last() == rest.last());
                assert(split_on(s.push(b), sep) =~~= split_on(s, sep).update(
                    split_on(s, sep).len() - 1,
                    split_on(s, sep).last().push(b),
                ));
            }
        } else {
            assert(split_on(s, sep) =~= seq![seq![s[0]] + rest[0]] + rest.drop_first());
            assert(split_on(s.push(b), sep) =~= seq![seq![s[0]] + restp[0]] + restp.drop_first());
            if b == sep {
                assert(restp =~~= rest.push(Seq::<u8>::empty()));
                assert(restp[0] == rest[0]);
                assert(split_on(s.push(b), sep) =~~= split_on(s, sep).push(Seq::<u8>::empty()));
            } else {
                assert(restp =~~= rest.update(rest.len() - 1, rest.last().push(b)));
                if rest.len() == 1 {
                    assert(restp[0] == rest[0].push(b));
                    assert(seq![s[0]] + rest[0].push(b) =~= (seq![s[0]] + rest[0]).push(b));
                    assert(split_on(s.push(b), sep) =~~= split_on(s, sep).update(
                        split_on(s, sep).len() - 1,
                        split_on(s, sep).last().push(b),
                    ));
                } else {
                    assert(restp[0] == rest[0]);
                    assert(split_on(s, sep).last() == rest.last());
                    assert(split_on(s.push(b), sep) =~~= split_on(s, sep).update(
                        split_on(s, sep).len() - 1,
                        split_on(s, sep).last().push(b),
                    ));
                }
            }
        }
    }
}

/// The element views of a byte vector are its view: unfolds one level of
/// `deep_view`.
pub proof fn lemma_vec_u8_deep(v: Vec<u8>)
    ensures
        v.deep_view() =~= v@,
{
}

/// Splits a byte slice at every occurrence of `sep`, keeping empty pieces.
pub fn split_bytes(s: &[u8], sep: u8) -> (r: Vec<Vec<u8>>)
    ensures
        r.deep_view() == split_on(s@, sep),
{
    let ghost gs = s@;
    let mut parts: Vec<Vec<u8>> = Vec::new();
    let mut cur: Vec<u8> = Vec::new();
    let mut i: usize = 0;
    while i < s.len()
        invariant
            gs == s@,
            i <= gs.len(),
            parts.deep_view().push(cur@) =~~= split_on(gs.take(i as int), sep),
        decreases gs.len() - i,
    {
        proof {
            lemma_split_on_push(gs.take(i as int), sep, gs[i as int]);
            assert(gs.take(i as int).push(gs[i as int]) =~= gs.take(i as int + 1));
        }
        let b: u8 = s[i];
        if b == sep {
            parts.push(cur);
            cur = Vec::new();
        } else {
            cur.push(b);
        }
        proof {
            assert(parts.deep_view().push(cur@) =~~= split_on(gs.take(i as int + 1), sep));
        }
        i += 1;
    }
    proof {
        assert(gs.take(gs.len() as int) =~= gs);
    }
    parts.push(cur);
    proof {
        assert(parts.deep_view() =~~= split_on(gs, sep));
    }
    parts
}

/// Whether `b` is an ASCII whitespace byte (space, tab, or one of the
/// line-break controls).
pub open spec fn is_ws(b: u8) -> bool {
    b == 32 || b == 9 || b == 10 || b == 13 || b == 11 || b == 12
}

/// The maximal whitespace-free runs of `s`, in order: what splitting on
/// whitespace and dropping empty pieces leaves.
pub open spec fn ws_tokens(s: Seq<u8>) -> Seq<Seq<u8>>
    decreases s.len(),
{
    if s.len() == 0 {
        Seq::<Seq<u8>>::empty()
    } else if is_ws(s[0]) {
        ws_tokens(s.drop_first())
    } else if s.len() == 1 {
        seq![seq![s[0]]]
    } else if is_ws(s[1]) {
        seq![seq![s[0]]] + ws_tokens(s.drop_first())
    } else {
        let rest = ws_tokens(s.drop_first());
        seq![seq![s[0]] + rest[0]] + rest.drop_first()
    }
}

proof fn lemma_ws_tokens_head(s: Seq<u8>)
    ensures
        s.len() > 0 && !is_ws(s[0]) ==> ws_tokens(s).len() >= 1 && ws_tokens(s)[0].len() > 0,
    decreases s.len(),
{
    if s.len() > 1 {
        lemma_ws_tokens_head(s.drop_first());
    }
}

proof fn lemma_ws_tokens_last(s: Seq<u8>)
    ensures
        s.len() > 0 && !is_ws(s.last()) ==> ws_tokens(s).len() >= 1,
    decreases s.len(),
{
    if s.len() > 1 {
        assert(s.drop_first().last() == s.last());
        lemma_ws_tokens_last(s.drop_first());
    }
}

proof fn lemma_ws_tokens_push(s: Seq<u8>, b: u8)
    ensures
        is_ws(b) ==> ws_tokens(s.push(b)) =~~= ws_tokens(s),
        !is_ws(b) && (s.len() == 0 || is_ws(s.last())) ==> ws_tokens(s.push(b)) =~~= ws_tokens(
            s,
        ).push(seq![b]),
        !is_ws(b) && s.len() > 0 && !is_ws(s.last()) ==> ws_tokens(s).len() >= 1 && ws_tokens(
            s.push(b),
        ) =~~= ws_tokens(s).update(ws_tokens(s).len() - 1, ws_tokens(s).last().push(b)),
    decreases s.len(),
{
    let p = s.push(b);
    if s.len() == 0 {
        assert(p.len() == 1 && p[0] == b);
        assert(p.drop_first() =~= Seq::<u8>::empty());
        if is_ws(b) {
            assert(ws_tokens(p) == ws_tokens(p.drop_first()));
            assert(ws_tokens(Seq::<u8>::empty()) =~~= Seq::<Seq<u8>>::empty());
            assert(ws_tokens(p) =~~= ws_tokens(s));
        } else {
            assert(ws_tokens(p) =~~= seq![seq![b]]);
        }
    } else {
        assert(p[0] == s[0]);
        assert(p.drop_first() =~= s.drop_first().push(b));
        lemma_ws_tokens_push(s.drop_first(), b);
        lemma_ws_tokens_head(s.drop_first().push(b));
        lemma_ws_tokens_head(s.drop_first());
        let rest = ws_tokens(s.drop_first());
        let rp = ws_tokens(s.drop_first().push(b));
        if s.len() == 1 {
            assert(s.last() == s[0]);
            assert(p[1] == b);
            assert(s.drop_first() =~= Seq::<u8>::empty());
            if is_ws(s[0]) {
                assert(ws_tokens(s) =~= rest);
                assert(ws_tokens(p) =~= rp);
            } else {
                assert(ws_tokens(s) =~= seq![seq![s[0]]]);
                if is_ws(b) {
                    assert(ws_tokens(p) =~= seq![seq![p[0]]] + rp);
                    assert(rp =~~= Seq::<Seq<u8>>::empty());
                    assert(ws_tokens(p) =~~= ws_tokens(s));
                } else {
                    assert(ws_tokens(p) =~= seq![seq![p[0]] + rp[0]] + rp.drop_first());
                    assert(rp =~~= seq![seq![b]]);
                    assert(seq![s[0]] + seq![b] =~= seq![s[0]].push(b));
                    assert(ws_tokens(p) =~~= ws_tokens(s).update(
                        ws_tokens(s).len() - 1,
                        ws_tokens(s).last().push(b),
                    ));
                }
            }
        } else {
            assert(p[1] == s[1]);
            assert(s.last() == s.drop_first().last());
            if is_ws(s[0]) {
                assert(ws_tokens(s) =~= rest);
                assert(ws_tokens(p) =~= rp);
            } else if is_ws(s[1]) {
                assert(ws_tokens(s) =~= seq![seq![s[0]]] + rest);
                assert(ws_tokens(p) =~= seq![seq![s[0]]] + rp);
                if is_ws(b) {
                    assert(ws_tokens(p) =~~= ws_tokens(s));
                } else if is_ws(s.last()) {
                    assert(rp =~~= rest.push(seq![b]));
                    assert(ws_tokens(p) =~~= ws_tokens(s).push(seq![b]));
                } else {
                    lemma_ws_tokens_last(s.drop_first());
                    assert(rp =~~= rest.update(rest.len() - 1, rest.last().push(b)));
                    assert(ws_tokens(s).last() == rest.last());
                    assert(ws_tokens(p) =~~= ws_tokens(s).update(
                        ws_tokens(s).len() - 1,
                        ws_tokens(s).last().push(b),
                    ));
                }
            } else {
                assert(ws_tokens(s) =~= seq![seq![s[0]] + rest[0]] + rest.drop_first());
                assert(ws_tokens(p) =~= seq![seq![s[0]] + rp[0]] + rp.drop_first());
                if is_ws(b) {
                    assert(rp =~~= rest);
                    assert(ws_tokens(p) =~~= ws_tokens(s));
                } else if is_ws(s.last()) {
                    assert(rp =~~= rest.push(seq![b]));
                    assert(rp[0] == rest[0]);
                    assert(rp.drop_first() =~= rest.drop_first().push(seq![b]));
                    assert(ws_tokens(p) =~~= ws_tokens(s).push(seq![b]));
                } else {
                    assert(rp =~~= rest.update(rest.len() - 1, rest.last().push(b)));
                    if rest.len() == 1 {
                        assert(rp[0] == rest[0].push(b));
                        assert(seq![s[0]] + rest[0].push(b) =~= (seq![s[0]] + rest[0]).push(b));
                        assert(ws_tokens(p) =~~= ws_tokens(s).update(
                            ws_tokens(s).len() - 1,
                            ws_tokens(s).last().push(b),
                        ));
                    } else {
                        assert(rp[0] == rest[0]);
                        assert(ws_tokens(s).last() == rest.last());
                        assert(ws_tokens(p) =~~= ws_tokens(s).update(
                            ws_tokens(s).len() - 1,
                            ws_tokens(s).last().push(b),
                        ));
                    }
                }
            }
        }
    }
}

/// The whitespace-separated fields of a byte slice: maximal runs of
/// non-whitespace bytes, in order, with no empty fields.
pub fn ws_fields(s: &[u8]) -> (r: Vec<Vec<u8>>)
    ensures
        r.deep_view() == ws_tokens(s@),
{
    let ghost gs = s@;
    let mut parts: Vec<Vec<u8>> = Vec::new();
    let mut cur: Vec<u8> = Vec::new();
    let mut i: usize = 0;
    while i < s.len()
        invariant
            gs == s@,
            i <= gs.len(),
            cur@.len() == 0 ==> parts.deep_view() =~~= ws_tokens(gs.take(i as int)),
            cur@.len() > 0 ==> parts.deep_view().push(cur@) =~~= ws_tokens(gs.take(i as int)),
            cur@.len() > 0 ==> i > 0 && !is_ws(gs[i as int - 1]),
            cur@.len() == 0 ==> i == 0 || is_ws(gs[i as int - 1]),
        decreases gs.len() - i,
    {
        proof {
            lemma_ws_tokens_push(gs.take(i as int), gs[i as int]);
            assert(gs.take(i as int).push(gs[i as int]) =~= gs.take(i as int + 1));
            if i > 0 {
                assert(gs.take(i as int).last() == gs[i as int - 1]);
            }
        }
        let b: u8 = s[i];
        if b == 32 || b == 9 || b == 10 || b == 13 || b == 11 || b == 12 {
            if cur.len() > 0 {
                parts.push(cur);
                cur = Vec::new();
            }
        } else {
            cur.push(b);
        }
        i += 1;
    }
    proof {
        assert(gs.take(gs.len() as int) =~= gs);
    }
    if cur.len() > 0 {
        parts.push(cur);
    }
    proof {
        assert(parts.deep_view() =~~= ws_tokens(gs));
    }
    parts
}

} // verus!
