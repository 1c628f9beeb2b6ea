//! Lexicographic order on strings, by code point, with an executable
//! comparison and a verified insertion sort over `Vec<String>`.

use vstd::prelude::*;
use vstd::string::StrSliceExecFns;

verus! {

/// Lexicographic order on character sequences, by code point: the order in
/// which Rust's own string comparison sorts strings.
pub open spec fn lex_le(a: Seq<char>, b: Seq<char>) -> bool
    decreases a.len(),
{
    if a.len() == 0 {
        true
    } else if b.len() == 0 {
        false
    } else if (a[0] as int) < (b[0] as int) {
        true
    } else if (b[0] as int) < (a[0] as int) {
        false
    } else {
        lex_le(a.drop_first(), b.drop_first())
    }
}

/// `lex_le` relates every sequence to itself.
pub proof fn lemma_lex_le_refl(a: Seq<char>)
    ensures
        lex_le(a, a),
    decreases a.len(),
{
    if a.len() > 0 {
        lemma_lex_le_refl(a.drop_first());
    }
}

/// `lex_le` is total: any two sequences compare one way or the other.
pub proof fn lemma_lex_le_total(a: Seq<char>, b: Seq<char>)
    ensures
        lex_le(a, b) || lex_le(b, a),
    decreases a.len(),
{
    if a.len() == 0 || b.len() == 0 {
    } else if (a[0] as int) == (b[0] as int) {
        lemma_lex_le_total(a.drop_first(), b.drop_first());
    }
}

/// `lex_le` is transitive.
pub proof fn lemma_lex_le_trans(a: Seq<char>, b: Seq<char>, c: Seq<char>)
    requires
        lex_le(a, b),
        lex_le(b, c),
    ensures
        lex_le(a, c),
    decreases a.len(),
{
    if a.len() == 0 || b.len() == 0 || c.len() == 0 {
    } else if (a[0] as int) == (b[0] as int) && (b[0] as int) == (c[0] as int) {
        lemma_lex_le_trans(a.drop_first(), b.drop_first(), c.drop_first());
    }
}

/// The views of a sequence of strings.
pub open spec fn str_views(s: Seq<String>) -> Seq<Seq<char>> {
    s.map_values(|x: String| x@)
}

/// A sequence of strings in ascending lexicographic order.
pub open spec fn lex_sorted(s: Seq<Seq<char>>) -> bool {
    forall|i: int, j: int| 0 <= i <= j < s.len() ==> lex_le(s[i], s[j])
}

/// Decides `lex_le` on two strings.
pub fn str_lex_le(a: &str, b: &str) -> (r: bool)
    ensures
        r == lex_le(a@, b@),
{
    let na = a.unicode_len();
    let nb = b.unicode_len();
    let mut i: usize = 0;
    proof {
        assert(a@.skip(0) =~= a@);
        assert(b@.skip(0) =~= b@);
    }
    loop
        invariant
            na == a@.len(),
            nb == b@.len(),
            i <= na,
            i <= nb,
            lex_le(a@, b@) == lex_le(a@.skip(i as int), b@.skip(i as int)),
        decreases na - i,
    {
        if i == na {
            proof {
                assert(a@.skip(i as int).len() == 0);
            }
            return true;
        }
        if i == nb {
            proof {
                assert(b@.skip(i as int).len() == 0);
                assert(a@.skip(i as int).len() > 0);
            }
            return false;
        }
        let ca = a.get_char(i);
        let cb = b.get_char(i);
        proof {
            assert(a@.skip(i as int)[0] == a@[i as int]);
            assert(b@.skip(i as int)[0] == b@[i as int]);
            assert(a@.skip(i as int).drop_first() =~= a@.skip(i as int + 1));
            assert(b@.skip(i as int).drop_first() =~= b@.skip(i as int + 1));
        }
        if (ca as u32) < (cb as u32) {
            return true;
        }
        if (cb as u32) < (ca as u32) {
            return false;
        }
        i += 1;
    }
}

/// Sorts the strings into ascending lexicographic order in place. The
/// result is sorted and holds exactly the same strings, multiplicity
/// included, whatever order they arrived in.
pub fn lex_sort(v: &mut Vec<String>)
    ensures
        lex_sorted(str_views(final(v)@)),
        str_views(final(v)@).to_multiset() == str_views(old(v)@).to_multiset(),
{
    let n = v.len();
    if n <= 1 {
        proof {
            if n == 1 {
                lemma_lex_le_refl(str_views(v@)[0]);
            }
        }
        return;
    }
    let mut i: usize = 1;
    proof {
        lemma_lex_le_refl(str_views(v@)[0]);
        assert(str_views(v@).take(1)[0] == str_views(v@)[0]);
    }
    while i < n
        invariant
            n == v@.len(),
            1 <= i <= n,
            lex_sorted(str_views(v@).take(i as int)),
            str_views(v@).to_multiset() == str_views(old(v)@).to_multiset(),
        decreases n - i,
    {
        let mut pos: usize = 0;
        while pos < i && str_lex_le(v[pos].as_str(), v[i].as_str())
            invariant
                n == v@.len(),
                1 <= i < n,
                pos <= i,
                forall|p: int|
                    0 <= p < pos ==> lex_le(str_views(v@)[p], str_views(v@)[i as int]),
            decreases i - pos,
        {
            pos += 1;
        }
        let ghost vs0 = v@;
        let ghost m0 = str_views(v@);
        proof {
            if pos < i {
                lemma_lex_le_total(m0[pos as int], m0[i as int]);
            }
        }
        let x = v.remove(i);
        let ghost vs1 = v@;
        let ghost m1 = str_views(v@);
        v.insert(pos, x);
        let ghost m2 = str_views(v@);
        proof {
            vs0.remove_ensures(i as int);
            m0.remove_ensures(i as int);
            assert(m1 =~= m0.remove(i as int));
            vs1.insert_ensures(pos as int, x);
            m1.insert_ensures(pos as int, x@);
            assert(m2 =~= m1.insert(pos as int, x@)) by {
                assert forall|j: int| 0 <= j < m2.len() implies m2[j] == m1.insert(
                    pos as int,
                    x@,
                )[j] by {
                    if j < pos {
                        assert(v@[j] == vs1[j]);
                    } else if j == pos {
                        assert(v@[j] == x);
                    } else {
                        assert(v@[j] == vs1[j - 1]);
                        assert(m1.insert(pos as int, x@)[j] == m1[j - 1]);
                    }
                }
            }
            lemma_insertion_step(m0, m1, m2, x@, i as int, pos as int);
        }
        i += 1;
    }
    proof {
        assert(str_views(v@).take(n as int) =~= str_views(v@));
    }
}

/// One step of the insertion sort: with the first `i` entries sorted, the
/// entry at `i` removed and re-inserted at `pos` — the first position whose
/// entry does not precede it — the first `i + 1` entries are sorted and the
/// contents are unchanged as a multiset.
proof fn lemma_insertion_step(
    m0: Seq<Seq<char>>,
    m1: Seq<Seq<char>>,
    m2: Seq<Seq<char>>,
    x: Seq<char>,
    i: int,
    pos: int,
)
    requires
        0 <= pos <= i < m0.len(),
        lex_sorted(m0.take(i)),
        m0[i] == x,
        forall|p: int| 0 <= p < pos ==> lex_le(m0[p], x),
        pos < i ==> lex_le(x, m0[pos]),
        m1 == m0.remove(i),
        m2 == m1.insert(pos, x),
    ensures
        lex_sorted(m2.take(i + 1)),
        m2.to_multiset() == m0.to_multiset(),
        m2.len() == m0.len(),
{
    broadcast use vstd::seq_lib::group_to_multiset_ensures;
    broadcast use vstd::seq_lib::to_multiset_insert;

    m0.remove_ensures(i);
    assert(m1.len() == m0.len() - 1);
    assert(m2.len() == m0.len());
    assert(m1.to_multiset() =~= m0.to_multiset().remove(x));
    assert(m2.to_multiset() =~= m1.to_multiset().insert(x));
    assert(m0.contains(x)) by {
        assert(m0[i] == x);
    }
    assert(m0.to_multiset().count(x) > 0);
    assert(m2.to_multiset() =~= m0.to_multiset()) by {
        assert forall|e: Seq<char>| #[trigger]
            m2.to_multiset().count(e) == m0.to_multiset().count(e) by {
            if e == x {
                assert(m2.to_multiset().count(e) == m0.to_multiset().remove(x).count(x) + 1);
            }
        }
    }
    // indexing facts for the reshuffled prefix
    assert(forall|p: int| 0 <= p < pos ==> m2[p] == m0[p]);
    assert(m2[pos] == x);
    assert forall|p: int| pos < p <= i implies m2[p] == m0[p - 1] by {
        assert(m2[p] == m1[p - 1]);
    }
    assert forall|p: int, q: int|
        #![trigger lex_le(m2.take(i + 1)[p], m2.take(i + 1)[q])]
        0 <= p <= q < i + 1 implies lex_le(m2.take(i + 1)[p], m2.take(i + 1)[q]) by {
        assert(m2.take(i + 1)[p] == m2[p]);
        assert(m2.take(i + 1)[q] == m2[q]);
        if p == q {
            lemma_lex_le_refl(m2[p]);
        } else if q < pos {
            assert(m0.take(i)[p] == m0[p] && m0.take(i)[q] == m0[q]);
        } else if p < pos && q == pos {
            assert(lex_le(m0[p], x));
        } else if p < pos && q > pos {
            assert(m0.take(i)[p] == m0[p] && m0.take(i)[q - 1] == m0[q - 1]);
            assert(lex_le(m0[p], m0[q - 1]));
        } else if p == pos {
            assert(m2[q] == m0[q - 1]);
            assert(lex_le(x, m0[pos]));
            if q - 1 == pos {
                assert(lex_le(m2[p], m2[q]));
            } else {
                assert(m0.take(i)[pos] == m0[pos] && m0.take(i)[q - 1] == m0[q - 1]);
                assert(lex_le(m0[pos], m0[q - 1]));
                lemma_lex_le_trans(x, m0[pos], m0[q - 1]);
            }
        } else {
            assert(m2[p] == m0[p - 1] && m2[q] == m0[q - 1]);
            assert(m0.take(i)[p - 1] == m0[p - 1] && m0.take(i)[q - 1] == m0[q - 1]);
            assert(lex_le(m0[p - 1], m0[q - 1]));
        }
    }
}

} // verus!
