use vstd::prelude::*;
use vstd::relations::{sorted_by, total_ordering};
use vstd::seq_lib::lemma_multiset_commutative;
use vstd::seq_lib::lemma_sorted_unique;

verus! {

/// Lexicographic "less than or equal" on character sequences, comparing
/// characters by their Unicode scalar values; a proper prefix sorts first.
pub open spec fn lex_le(a: Seq<char>, b: Seq<char>) -> bool
    decreases a.len(),
{
    if a.len() == 0 {
        true
    } else if b.len() == 0 {
        false
    } else if a[0] != b[0] {
        a[0] < b[0]
    } else {
        lex_le(a.drop_first(), b.drop_first())
    }
}

/// The lexicographic order packaged as a relation value, for use with
/// `sorted_by` and the ordering lemmas.
pub open spec fn char_seq_le() -> spec_fn(Seq<char>, Seq<char>) -> bool {
    |a: Seq<char>, b: Seq<char>| lex_le(a, b)
}

pub proof fn lemma_lex_le_refl(a: Seq<char>)
    ensures
        lex_le(a, a),
    decreases a.len(),
{
    if a.len() > 0 {
        lemma_lex_le_refl(a.drop_first());
    }
}

pub proof fn lemma_lex_le_antisym(a: Seq<char>, b: Seq<char>)
    requires
        lex_le(a, b),
        lex_le(b, a),
    ensures
        a == b,
    decreases a.len(),
{
    if a.len() == 0 {
        assert(b.len() == 0);
        assert(a =~= b);
    } else {
        assert(b.len() > 0);
        assert(a[0] == b[0]);
        lemma_lex_le_antisym(a.drop_first(), b.drop_first());
        assert forall|i: int| 0 <= i < a.len() implies a[i] == b[i] by {
            if i > 0 {
                assert(a.drop_first()[i - 1] == b.drop_first()[i - 1]);
            }
        }
        assert(a =~= b);
    }
}

pub proof fn lemma_lex_le_trans(a: Seq<char>, b: Seq<char>, c: Seq<char>)
    requires
        lex_le(a, b),
        lex_le(b, c),
    ensures
        lex_le(a, c),
    decreases a.len(),
{
    if a.len() == 0 {
    } else if b.len() == 0 {
        assert(false);
    } else if c.len() == 0 {
        assert(false);
    } else {
        if a[0] == b[0] && b[0] == c[0] {
            lemma_lex_le_trans(a.drop_first(), b.drop_first(), c.drop_first());
        }
    }
}

pub proof fn lemma_lex_le_connected(a: Seq<char>, b: Seq<char>)
    ensures
        lex_le(a, b) || lex_le(b, a),
    decreases a.len(),
{
    if a.len() > 0 && b.len() > 0 && a[0] == b[0] {
        lemma_lex_le_connected(a.drop_first(), b.drop_first());
    }
}

/// The lexicographic order is a total ordering, as `lemma_sorted_unique`
/// and the sorting routines require.
pub proof fn lemma_lex_le_total_ordering()
    ensures
        total_ordering(char_seq_le()),
{
    let r = char_seq_le();
    assert forall|x: Seq<char>| #[trigger] r(x, x) by {
        lemma_lex_le_refl(x);
    }
    assert forall|x: Seq<char>, y: Seq<char>| #[trigger] r(x, y) && #[trigger] r(y, x) implies x
        == y by {
        lemma_lex_le_antisym(x, y);
    }
    assert forall|x: Seq<char>, y: Seq<char>, z: Seq<char>|
        #[trigger] r(x, y) && #[trigger] r(y, z) implies r(x, z) by {
        lemma_lex_le_trans(x, y, z);
    }
    assert forall|x: Seq<char>, y: Seq<char>| #[trigger] r(x, y) || #[trigger] r(y, x) by {
        lemma_lex_le_connected(x, y);
    }
}

/// Skipping an equal prefix does not change how two sequences compare.
proof fn lemma_lex_le_skip(a: Seq<char>, b: Seq<char>, i: int)
    requires
        0 <= i <= a.len(),
        i <= b.len(),
        forall|j: int| 0 <= j < i ==> a[j] == b[j],
    ensures
        lex_le(a, b) == lex_le(a.skip(i), b.skip(i)),
    decreases i,
{
    if i == 0 {
        assert(a.skip(0) =~= a);
        assert(b.skip(0) =~= b);
    } else {
        assert(a[0] == b[0]);
        assert(a.drop_first().skip(i - 1) =~= a.skip(i));
        assert(b.drop_first().skip(i - 1) =~= b.skip(i));
        lemma_lex_le_skip(a.drop_first(), b.drop_first(), i - 1);
    }
}

/// Decides the lexicographic order on two strings.
pub fn str_le(a: &str, b: &str) -> (r: bool)
    ensures
        r == lex_le(a@, b@),
{
    let la = a.unicode_len();
    let lb = b.unicode_len();
    let mut i: usize = 0;
    while i < la && i < lb
        invariant
            la == a@.len(),
            lb == b@.len(),
            i <= la,
            i <= lb,
            forall|j: int| 0 <= j < i ==> a@[j] == b@[j],
        decreases la - i,
    {
        let ca = a.get_char(i);
        let cb = b.get_char(i);
        if ca < cb {
            proof {
                lemma_lex_le_skip(a@, b@, i as int);
            }
            return true;
        }
        if cb < ca {
            proof {
                lemma_lex_le_skip(a@, b@, i as int);
            }
            return false;
        }
        i += 1;
    }
    proof {
        lemma_lex_le_skip(a@, b@, i as int);
    }
    la <= lb
}

/// Decides equality of two strings' character sequences.
pub fn str_eq(a: &str, b: &str) -> (r: bool)
    ensures
        r == (a@ == b@),
{
    let le_ab = str_le(a, b);
    let le_ba = str_le(b, a);
    proof {
        if lex_le(a@, b@) && lex_le(b@, a@) {
            lemma_lex_le_antisym(a@, b@);
        }
        if a@ == b@ {
            lemma_lex_le_refl(a@);
        }
    }
    le_ab && le_ba
}

/// The character sequences of a sequence of strings.
pub open spec fn seq_views(s: Seq<String>) -> Seq<Seq<char>> {
    s.map_values(|x: String| x@)
}

/// Inserting an element anywhere in a sequence adds exactly that element
/// to the sequence's multiset.
pub proof fn lemma_to_multiset_insert<A>(s: Seq<A>, p: int, x: A)
    requires
        0 <= p <= s.len(),
    ensures
        s.insert(p, x).to_multiset() =~= s.to_multiset().insert(x),
{
    broadcast use vstd::multiset::group_multiset_axioms;
    broadcast use vstd::seq_lib::group_to_multiset_ensures;

    let u = s.subrange(0, p);
    let w = s.subrange(p, s.len() as int);
    assert(s.insert(p, x) =~= u.push(x) + w);
    assert(s =~= u + w);
    lemma_multiset_commutative(u.push(x), w);
    lemma_multiset_commutative(u, w);
    assert(u.push(x).to_multiset() =~= u.to_multiset().insert(x));
}

/// Sorts the strings into lexicographic order; the result holds exactly
/// the input strings, with multiplicity.
pub fn sort_strings(v: &Vec<String>) -> (r: Vec<String>)
    ensures
        sorted_by(seq_views(r@), char_seq_le()),
        seq_views(r@).to_multiset() == seq_views(v@).to_multiset(),
{
    broadcast use vstd::seq_lib::group_to_multiset_ensures;

    let mut out: Vec<String> = Vec::new();
    let mut k: usize = 0;
    proof {
        assert(seq_views(out@) =~= Seq::<Seq<char>>::empty());
        assert(seq_views(v@.take(0)) =~= Seq::<Seq<char>>::empty());
    }
    while k < v.len()
        invariant
            k <= v.len(),
            sorted_by(seq_views(out@), char_seq_le()),
            seq_views(out@).to_multiset() == seq_views(v@.take(k as int)).to_multiset(),
        decreases v.len() - k,
    {
        let x = v[k].clone();
        let ghost old_out = out@;
        let mut p: usize = 0;
        while p < out.len() && !str_le(&x, &out[p])
            invariant
                p <= out.len(),
                forall|j: int| 0 <= j < p ==> !lex_le(x@, seq_views(out@)[j]),
            decreases out.len() - p,
        {
            p += 1;
        }
        let ghost pos = p as int;
        out.insert(p, x);
        proof {
            let le = char_seq_le();
            let ov = seq_views(old_out);
            let nv = seq_views(out@);
            assert(nv =~= ov.insert(pos, x@));
            ov.insert_ensures(pos, x@);
            assert forall|i: int, j: int| 0 <= i < j < nv.len() implies #[trigger] le(
                nv[i],
                nv[j],
            ) by {
                lemma_lex_le_total_ordering();
                if j < pos {
                    assert(le(ov[i], ov[j]));
                } else if i < pos && j == pos {
                    assert(!lex_le(x@, ov[i]));
                    lemma_lex_le_connected(x@, ov[i]);
                } else if i < pos && j > pos {
                    assert(le(ov[i], ov[j - 1]));
                } else if i == pos && j > pos {
                    // the scan stopped at an element that x@ precedes
                    assert(pos <= j - 1 < ov.len());
                    assert(lex_le(x@, ov[pos]));
                    if j - 1 > pos {
                        assert(le(ov[pos], ov[j - 1]));
                        lemma_lex_le_trans(x@, ov[pos], ov[j - 1]);
                    }
                } else {
                    assert(le(ov[i - 1], ov[j - 1]));
                }
            }
            lemma_to_multiset_insert(ov, pos, x@);
            assert(nv.to_multiset() =~= ov.to_multiset().insert(x@));
            assert(v@.take(k as int).push(v@[k as int]) =~= v@.take(k as int + 1));
            assert(seq_views(v@.take(k as int + 1)) =~= seq_views(v@.take(k as int)).push(
                v@[k as int]@,
            ));
            assert(x@ == v@[k as int]@);
            seq_views(v@.take(k as int)).to_multiset_ensures();
            assert(seq_views(v@.take(k as int)).push(x@).to_multiset() =~= seq_views(
                v@.take(k as int),
            ).to_multiset().insert(x@));
            assert(seq_views(v@.take(k as int + 1)) =~= seq_views(v@.take(k as int)).push(x@));
        }
        k += 1;
    }
    proof {
        assert(v@.take(v@.len() as int) =~= v@);
    }
    out
}

/// Tells whether two string vectors hold the same character sequences with
/// the same multiplicities, in any order.
pub fn string_multisets_match(a: &Vec<String>, b: &Vec<String>) -> (r: bool)
    ensures
        r == (seq_views(a@).to_multiset() == seq_views(b@).to_multiset()),
{
    broadcast use vstd::seq_lib::group_to_multiset_ensures;

    let sa = sort_strings(a);
    let sb = sort_strings(b);
    if sa.len() != sb.len() {
        proof {
            assert(seq_views(sa@).len() == sa@.len());
            assert(seq_views(sb@).len() == sb@.len());
            assert(seq_views(sa@).to_multiset().len() == seq_views(sa@).len());
            assert(seq_views(sb@).to_multiset().len() == seq_views(sb@).len());
            assert(seq_views(a@).to_multiset().len() != seq_views(b@).to_multiset().len());
        }
        return false;
    }
    let mut i: usize = 0;
    while i < sa.len()
        invariant
            sa@.len() == sb@.len(),
            i <= sa@.len(),
            sorted_by(seq_views(sa@), char_seq_le()),
            sorted_by(seq_views(sb@), char_seq_le()),
            seq_views(sa@).to_multiset() == seq_views(a@).to_multiset(),
            seq_views(sb@).to_multiset() == seq_views(b@).to_multiset(),
            forall|j: int| 0 <= j < i ==> seq_views(sa@)[j] == seq_views(sb@)[j],
        decreases sa@.len() - i,
    {
        if !str_eq(&sa[i], &sb[i]) {
            proof {
                if seq_views(a@).to_multiset() == seq_views(b@).to_multiset() {
                    lemma_lex_le_total_ordering();
                    lemma_sorted_unique(seq_views(sa@), seq_views(sb@), char_seq_le());
                    assert(seq_views(sa@)[i as int] == seq_views(sb@)[i as int]);
                    assert(sa@[i as int]@ == sb@[i as int]@);
                }
            }
            return false;
        }
        i += 1;
    }
    proof {
        assert(seq_views(sa@) =~= seq_views(sb@));
    }
    true
}

} // verus!
