//! Lists of identifiers treated as sets that keep their order.
use vstd::prelude::*;
use vstd::string::*;
use crate::types::ids_view;

verus! {

/// `s` with `x` appended unless already present.
pub open spec fn add_id(s: Seq<Seq<char>>, x: Seq<char>) -> Seq<Seq<char>> {
    if s.contains(x) {
        s
    } else {
        s.push(x)
    }
}

/// `s` with every `x` of `xs` added in turn.
pub open spec fn add_ids(s: Seq<Seq<char>>, xs: Seq<Seq<char>>) -> Seq<Seq<char>>
    decreases xs.len(),
{
    if xs.len() == 0 {
        s
    } else {
        add_id(add_ids(s, xs.drop_last()), xs.last())
    }
}

/// Holds of every identifier but `x`.
pub open spec fn other_than(x: Seq<char>) -> spec_fn(Seq<char>) -> bool {
    |y: Seq<char>| y != x
}

/// `s` without any occurrence of `x`.
pub open spec fn drop_id(s: Seq<Seq<char>>, x: Seq<char>) -> Seq<Seq<char>> {
    s.filter(other_than(x))
}

pub proof fn lemma_add_id_contains(s: Seq<Seq<char>>, x: Seq<char>)
    ensures
        forall|y: Seq<char>| #[trigger] add_id(s, x).contains(y) <==> (s.contains(y) || y == x),
{
    assert forall|y: Seq<char>| #[trigger] add_id(s, x).contains(y) <==> (s.contains(y) || y == x) by {
        if !s.contains(x) {
            assert(s.push(x)[s.len() as int] == x);
            if s.contains(y) {
                let k = choose|k: int| 0 <= k < s.len() && s[k] == y;
                assert(s.push(x)[k] == y);
            }
            if s.push(x).contains(y) && y != x {
                let k = choose|k: int| 0 <= k < s.len() + 1 && s.push(x)[k] == y;
                assert(s[k] == y);
            }
        }
    }
}

pub proof fn lemma_add_ids_contains(s: Seq<Seq<char>>, xs: Seq<Seq<char>>)
    ensures
        forall|y: Seq<char>| #[trigger] add_ids(s, xs).contains(y) <==> (s.contains(y) || xs.contains(y)),
    decreases xs.len(),
{
    if xs.len() > 0 {
        lemma_add_ids_contains(s, xs.drop_last());
        let t = add_ids(s, xs.drop_last());
        assert forall|y: Seq<char>| #[trigger] add_ids(s, xs).contains(y) <==> (s.contains(y)
            || xs.contains(y)) by {
            if xs.contains(y) && !xs.drop_last().contains(y) {
                let k = choose|k: int| 0 <= k < xs.len() && xs[k] == y;
                if k < xs.len() - 1 {
                    assert(xs.drop_last()[k] == y);
                }
            }
            if xs.drop_last().contains(y) {
                let k = choose|k: int| 0 <= k < xs.drop_last().len() && xs.drop_last()[k] == y;
                assert(xs[k] == y);
            }
            if !t.contains(xs.last()) {
                assert(t.push(xs.last())[t.len() as int] == xs.last());
                if t.push(xs.last()).contains(y) && y != xs.last() {
                    let k = choose|k: int| 0 <= k < t.len() + 1 && t.push(xs.last())[k] == y;
                    assert(t[k] == y);
                }
                if t.contains(y) {
                    let k = choose|k: int| 0 <= k < t.len() && t[k] == y;
                    assert(t.push(xs.last())[k] == y);
                }
            }
            assert(xs[xs.len() - 1] == xs.last());
        }
    }
}

/// Adding what is already there changes nothing.
pub proof fn lemma_add_ids_present(s: Seq<Seq<char>>, xs: Seq<Seq<char>>)
    requires
        forall|y: Seq<char>| #[trigger] xs.contains(y) ==> s.contains(y),
    ensures
        add_ids(s, xs) == s,
    decreases xs.len(),
{
    if xs.len() > 0 {
        assert forall|y: Seq<char>| #[trigger] xs.drop_last().contains(y) implies s.contains(y) by {
            let k = choose|k: int| 0 <= k < xs.drop_last().len() && xs.drop_last()[k] == y;
            assert(xs[k] == y);
            assert(xs.contains(y));
        }
        lemma_add_ids_present(s, xs.drop_last());
        assert(xs.contains(xs[xs.len() - 1]));
    }
}

pub proof fn lemma_drop_id_contains(s: Seq<Seq<char>>, x: Seq<char>)
    ensures
        forall|y: Seq<char>| #[trigger] drop_id(s, x).contains(y) <==> (s.contains(y) && y != x),
{
    broadcast use vstd::seq_lib::group_filter_ensures;

    let f = other_than(x);
    assert forall|y: Seq<char>| #[trigger] drop_id(s, x).contains(y) <==> (s.contains(y) && y
        != x) by {
        if s.contains(y) && y != x {
            let k = choose|k: int| 0 <= k < s.len() && s[k] == y;
            s.lemma_filter_contains(f, k);
        }
        if drop_id(s, x).contains(y) {
            s.lemma_filter_contains_rev(f, y);
        }
    }
}

/// Dropping an identifier from a list without repeats leaves a list without repeats.
pub proof fn lemma_drop_id_no_duplicates(s: Seq<Seq<char>>, x: Seq<char>)
    requires
        s.no_duplicates(),
    ensures
        drop_id(s, x).no_duplicates(),
    decreases s.len(),
{
    reveal(Seq::filter);
    if s.len() > 0 {
        let init = s.drop_last();
        assert(init.no_duplicates()) by {
            assert forall|i: int, j: int| 0 <= i < init.len() && 0 <= j < init.len() && i != j implies init[i] != init[j] by {
                assert(init[i] == s[i] && init[j] == s[j]);
            }
        }
        lemma_drop_id_no_duplicates(init, x);
        lemma_drop_id_contains(init, x);
        let last = s.last();
        assert(!init.contains(last)) by {
            if init.contains(last) {
                let k = choose|k: int| 0 <= k < init.len() && init[k] == last;
                assert(s[k] == s[s.len() - 1]);
            }
        }
        let d = drop_id(init, x);
        if other_than(x)(last) {
            assert(drop_id(s, x) == d.push(last));
            assert(!d.contains(last));
            assert forall|i: int, j: int| 0 <= i < d.len() + 1 && 0 <= j < d.len() + 1 && i != j implies d.push(last)[i] != d.push(last)[j] by {
                if i == d.len() as int {
                    assert(d.push(last)[j] == d[j]);
                } else if j == d.len() as int {
                    assert(d.push(last)[i] == d[i]);
                }
            }
        } else {
            assert(drop_id(s, x) == d);
        }
    }
}

/// Adding an identifier keeps a list without repeats.
pub proof fn lemma_add_id_no_duplicates(s: Seq<Seq<char>>, x: Seq<char>)
    requires
        s.no_duplicates(),
    ensures
        add_id(s, x).no_duplicates(),
{
    if !s.contains(x) {
        let t = s.push(x);
        assert forall|i: int, j: int| 0 <= i < t.len() && 0 <= j < t.len() && i != j implies t[i] != t[j] by {
            if i == s.len() as int {
                assert(t[j] == s[j]);
            } else if j == s.len() as int {
                assert(t[i] == s[i]);
            } else {
                assert(t[i] == s[i] && t[j] == s[j]);
            }
        }
    }
}

/// No identifier is listed twice.
pub fn ids_distinct(v: &Vec<String>) -> (r: bool)
    ensures
        r == ids_view(*v).no_duplicates(),
{
    let ghost s = ids_view(*v);
    let mut i: usize = 0;
    while i < v.len()
        invariant
            i <= v.len(),
            s == ids_view(*v),
            forall|a: int, b: int| 0 <= a < i && 0 <= b < s.len() && a != b ==> #[trigger] s[a] != #[trigger] s[b],
        decreases v.len() - i,
    {
        let mut j: usize = 0;
        while j < v.len()
            invariant
                i < v.len(),
                j <= v.len(),
                s == ids_view(*v),
                forall|a: int, b: int| 0 <= a < i && 0 <= b < s.len() && a != b ==> #[trigger] s[a] != #[trigger] s[b],
                forall|b: int| 0 <= b < j && b != i ==> s[i as int] != #[trigger] s[b],
            decreases v.len() - j,
        {
            if j != i && v[i] == v[j] {
                assert(s[i as int] == s[j as int]);
                return false;
            }
            j = j + 1;
        }
        i = i + 1;
    }
    true
}

pub fn contains_id(v: &Vec<String>, id: &String) -> (r: bool)
    ensures
        r == ids_view(*v).contains(id@),
{
    let mut i: usize = 0;
    while i < v.len()
        invariant
            i <= v.len(),
            forall|j: int| 0 <= j < i ==> (#[trigger] ids_view(*v)[j]) != id@,
        decreases v.len() - i,
    {
        if v[i] == *id {
            assert(ids_view(*v)[i as int] == id@);
            return true;
        }
        i = i + 1;
    }
    false
}

/// Appends `id` unless it is already listed.
pub fn push_unique(v: &mut Vec<String>, id: String)
    ensures
        ids_view(*final(v)) == add_id(ids_view(*old(v)), id@),
{
    if !contains_id(v, &id) {
        let ghost before = ids_view(*v);
        v.push(id);
        assert(ids_view(*v) =~= before.push(id@));
    }
}

/// A copy of `v` without `id`.
pub fn without_id(v: &Vec<String>, id: &String) -> (r: Vec<String>)
    ensures
        ids_view(r) == drop_id(ids_view(*v), id@),
{
    let mut r: Vec<String> = Vec::new();
    let mut i: usize = 0;
    while i < v.len()
        invariant
            i <= v.len(),
            ids_view(r) == ids_view(*v).take(i as int).filter(other_than(id@)),
        decreases v.len() - i,
    {
        let ghost before = ids_view(r);
        assert(ids_view(*v).take(i + 1) =~= ids_view(*v).take(i as int).push(v[i as int]@));
        proof {
            ids_view(*v).take(i as int).lemma_filter_push(v[i as int]@, other_than(id@));
        }
        let ghost x = ids_view(*v)[i as int];
        assert(x == v[i as int]@);
        if !(v[i] == *id) {
            assert(other_than(id@)(x));
            r.push(v[i].clone());
            assert(ids_view(r) =~= before.push(x));
        } else {
            assert(!other_than(id@)(x));
        }
        i = i + 1;
    }
    assert(ids_view(*v).take(i as int) =~= ids_view(*v));
    r
}

/// Character-wise equality of two strings.
pub fn str_equals(a: &str, b: &str) -> (r: bool)
    ensures
        r == (a@ == b@),
{
    let n = a.unicode_len();
    if n != b.unicode_len() {
        return false;
    }
    let mut i: usize = 0;
    while i < n
        invariant
            n == a@.len(),
            n == b@.len(),
            i <= n,
            forall|j: int| 0 <= j < i ==> a@[j] == b@[j],
        decreases n - i,
    {
        if a.get_char(i) != b.get_char(i) {
            return false;
        }
        i = i + 1;
    }
    assert(a@ =~= b@);
    true
}

/// The decimal digits of `n`, most significant first.
pub open spec fn decimal(n: nat) -> Seq<char>
    decreases n,
{
    if n < 10 {
        seq![digit_char(n)]
    } else {
        decimal(n / 10) + seq![digit_char(n % 10)]
    }
}

pub open spec fn digit_char(d: nat) -> char {
    if d == 0 { '0' }
    else if d == 1 { '1' }
    else if d == 2 { '2' }
    else if d == 3 { '3' }
    else if d == 4 { '4' }
    else if d == 5 { '5' }
    else if d == 6 { '6' }
    else if d == 7 { '7' }
    else if d == 8 { '8' }
    else { '9' }
}

fn digit_str(d: u64) -> (r: &'static str)
    requires
        d < 10,
    ensures
        r@ == seq![digit_char(d as nat)],
{
    proof {
        reveal_strlit("0");
        reveal_strlit("1");
        reveal_strlit("2");
        reveal_strlit("3");
        reveal_strlit("4");
        reveal_strlit("5");
        reveal_strlit("6");
        reveal_strlit("7");
        reveal_strlit("8");
        reveal_strlit("9");
    }
    if d == 0 { "0" }
    else if d == 1 { "1" }
    else if d == 2 { "2" }
    else if d == 3 { "3" }
    else if d == 4 { "4" }
    else if d == 5 { "5" }
    else if d == 6 { "6" }
    else if d == 7 { "7" }
    else if d == 8 { "8" }
    else { "9" }
}

/// Appends the decimal digits of `n` to `s`.
pub fn append_decimal(s: &mut String, n: u64)
    ensures
        final(s)@ == old(s)@ + decimal(n as nat),
    decreases n,
{
    if n >= 10 {
        append_decimal(s, n / 10);
    }
    s.append(digit_str(n % 10));
    assert(final(s)@ =~= old(s)@ + decimal(n as nat));
}

} // verus!
