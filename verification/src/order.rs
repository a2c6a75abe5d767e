//! The order of strings (`Ord for String`): lexicographic on the UTF-8
//! bytes, which is lexicographic on the characters' code points; and a
//! sort that yields `Seq::sort_by` of that order.
use vstd::prelude::*;
use vstd::relations::{total_ordering, sorted_by};
use crate::text::{chars_of, str_views};

verus! {

/// `a <= b` in string order.
pub open spec fn lex_le(a: Seq<char>, b: Seq<char>) -> bool
    decreases a.len(),
{
    if a.len() == 0 {
        true
    } else if b.len() == 0 {
        false
    } else if a[0] != b[0] {
        (a[0] as u32) < (b[0] as u32)
    } else {
        lex_le(a.drop_first(), b.drop_first())
    }
}

/// The order as a relation.
pub open spec fn string_le() -> spec_fn(Seq<char>, Seq<char>) -> bool {
    |a: Seq<char>, b: Seq<char>| lex_le(a, b)
}

proof fn lemma_char_u32_injective(x: char, y: char)
    ensures
        (x as u32) == (y as u32) ==> x == y,
{
}

pub proof fn lemma_lex_refl(a: Seq<char>)
    ensures
        lex_le(a, a),
    decreases a.len(),
{
    if a.len() > 0 {
        lemma_lex_refl(a.drop_first());
    }
}

pub proof fn lemma_lex_antisym(a: Seq<char>, b: Seq<char>)
    requires
        lex_le(a, b),
        lex_le(b, a),
    ensures
        a == b,
    decreases a.len(),
{
    if a.len() > 0 && b.len() > 0 {
        lemma_char_u32_injective(a[0], b[0]);
        if a[0] == b[0] {
            lemma_lex_antisym(a.drop_first(), b.drop_first());
            assert(a =~= seq![a[0]] + a.drop_first());
            assert(b =~= seq![b[0]] + b.drop_first());
        }
    } else {
        assert(a =~= b);
    }
}

pub proof fn lemma_lex_trans(a: Seq<char>, b: Seq<char>, c: Seq<char>)
    requires
        lex_le(a, b),
        lex_le(b, c),
    ensures
        lex_le(a, c),
    decreases a.len(),
{
    if a.len() > 0 && b.len() > 0 && c.len() > 0 {
        if a[0] == b[0] && b[0] == c[0] {
            lemma_lex_trans(a.drop_first(), b.drop_first(), c.drop_first());
        }
    }
}

pub proof fn lemma_lex_total(a: Seq<char>, b: Seq<char>)
    ensures
        lex_le(a, b) || lex_le(b, a),
    decreases a.len(),
{
    if a.len() > 0 && b.len() > 0 {
        lemma_char_u32_injective(a[0], b[0]);
        if a[0] == b[0] {
            lemma_lex_total(a.drop_first(), b.drop_first());
        }
    }
}

/// String order is a total order.
pub proof fn lemma_string_le_total()
    ensures
        total_ordering(string_le()),
{
    assert forall|x: Seq<char>| #[trigger] string_le()(x, x) by {
        lemma_lex_refl(x);
    }
    assert forall|x: Seq<char>, y: Seq<char>|
        #[trigger] string_le()(x, y) && #[trigger] string_le()(y, x) implies x == y by {
        lemma_lex_antisym(x, y);
    }
    assert forall|x: Seq<char>, y: Seq<char>, z: Seq<char>|
        #[trigger] string_le()(x, y) && #[trigger] string_le()(y, z) implies string_le()(
        x,
        z,
    ) by {
        lemma_lex_trans(x, y, z);
    }
    assert forall|x: Seq<char>, y: Seq<char>|
        #[trigger] string_le()(x, y) || #[trigger] string_le()(y, x) by {
        lemma_lex_total(x, y);
    }
}

/// Compares two character sequences in string order.
pub fn lex_le_chars(a: &[char], b: &[char]) -> (r: bool)
    ensures
        r == lex_le(a@, b@),
{
    let mut i: usize = 0;
    assert(a@.skip(0) =~= a@);
    assert(b@.skip(0) =~= b@);
    while i < a.len() && i < b.len() && a[i] == b[i]
        invariant
            i <= a@.len(),
            i <= b@.len(),
            lex_le(a@, b@) == lex_le(a@.skip(i as int), b@.skip(i as int)),
        decreases a@.len() - i,
    {
        assert(a@.skip(i as int).drop_first() =~= a@.skip(i + 1));
        assert(b@.skip(i as int).drop_first() =~= b@.skip(i + 1));
        i = i + 1;
    }
    if i == a.len() {
        true
    } else if i == b.len() {
        false
    } else {
        assert(a@.skip(i as int)[0] == a@[i as int]);
        assert(b@.skip(i as int)[0] == b@[i as int]);
        (a[i] as u32) < (b[i] as u32)
    }
}

fn string_le_exec(a: &String, b: &String) -> (r: bool)
    ensures
        r == lex_le(a@, b@),
{
    let ac = chars_of(a.as_str());
    let bc = chars_of(b.as_str());
    lex_le_chars(&ac, &bc)
}

/// Sorting strings gives the same strings, each as often, in string order.
pub proof fn law_sort_strings_sorted(s: Seq<Seq<char>>)
    ensures
        s.sort_by(string_le()).to_multiset() == s.to_multiset(),
        vstd::relations::sorted_by(s.sort_by(string_le()), string_le()),
{
    lemma_string_le_total();
    s.lemma_sort_by_ensures(string_le());
}

/// Sorts strings in string order (`sort` on a `Vec<String>`).
pub fn sort_strings(v: Vec<String>) -> (r: Vec<String>)
    ensures
        str_views(r@) == str_views(v@).sort_by(string_le()),
{
    broadcast use vstd::seq_lib::to_multiset_insert;

    let ghost input = str_views(v@);
    let mut out: Vec<String> = Vec::new();
    let mut rest = v;
    let ghost n = input.len();
    proof {
        lemma_string_le_total();
        assert(str_views(out@) =~= seq![]);
        assert(input.take(0) =~= seq![]);
        assert(str_views(rest@) =~= input.skip(0));
    }
    while rest.len() > 0
        invariant
            total_ordering(string_le()),
            n == input.len(),
            rest@.len() <= n,
            str_views(rest@) == input.skip(n - rest@.len()),
            sorted_by(str_views(out@), string_le()),
            str_views(out@).to_multiset() == input.take(n - rest@.len()).to_multiset(),
        decreases rest@.len(),
    {
        let ghost i: int = n - rest@.len();
        let ghost r0 = rest@;
        assert(str_views(r0)[0] == input.skip(i)[0]);
        let x = rest.remove(0);
        assert(str_views(rest@) =~= input.skip(n - rest@.len())) by {
            assert(str_views(rest@) =~= str_views(r0).drop_first());
        }
        let ghost ov = str_views(out@);
        // first position holding a string greater than x
        let mut k: usize = 0;
        while k < out.len() && string_le_exec(&out[k], &x)
            invariant
                k <= out@.len(),
                ov == str_views(out@),
                forall|j: int| 0 <= j < k ==> lex_le(ov[j], x@),
            decreases out@.len() - k,
        {
            k = k + 1;
        }
        out.insert(k, x);
        proof {
            let nv = str_views(out@);
            assert(nv =~= ov.insert(k as int, x@));
            if k < ov.len() {
                assert(!lex_le(ov[k as int], x@));
                lemma_lex_total(ov[k as int], x@);
            }
            assert forall|a: int, b: int| 0 <= a < b < nv.len() implies #[trigger] string_le()(
                nv[a],
                nv[b],
            ) by {
                if a < k && b < k {
                    assert(string_le()(ov[a], ov[b]));
                } else if a < k && b == k {
                } else if a < k && b > k {
                    assert(string_le()(ov[a], ov[k as int]));
                    assert(string_le()(ov[k as int], ov[b - 1]));
                    lemma_lex_trans(ov[a], ov[k as int], ov[b - 1]);
                    if a + 1 < b - 1 {
                        assert(string_le()(ov[a], ov[b - 1]));
                    }
                } else if a == k {
                    if b - 1 > k {
                        assert(string_le()(ov[k as int], ov[b - 1]));
                        lemma_lex_trans(x@, ov[k as int], ov[b - 1]);
                    }
                } else {
                    assert(string_le()(ov[a - 1], ov[b - 1]));
                }
            }
            assert(input.take(i + 1) =~= input.take(i).push(input[i]));
            vstd::seq_lib::to_multiset_build(input.take(i), input[i]);
            vstd::seq_lib::to_multiset_insert(ov, k as int, x@);
        }
    }
    proof {
        assert(input.take(n as int) =~= input);
        input.lemma_sort_by_ensures(string_le());
        vstd::seq_lib::lemma_sorted_unique(str_views(out@), input.sort_by(string_le()), string_le());
    }
    out
}

} // verus!
