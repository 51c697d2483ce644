use vstd::prelude::*;
use vstd::relations::{sorted_by, total_ordering};
use vstd::seq_lib::lemma_sorted_unique;
use vstd::std_specs::iter::IteratorSpec;

verus! {

/// Lexicographic order on keys, character by character, comparing
/// characters by their code points. A key is below every key it is a
/// prefix of.
pub open spec fn key_le(a: Seq<char>, b: Seq<char>) -> bool
    decreases a.len(),
{
    if a.len() == 0 {
        true
    } else if b.len() == 0 {
        false
    } else if a[0] != b[0] {
        a[0] < b[0]
    } else {
        key_le(a.drop_first(), b.drop_first())
    }
}

/// The key order as a relation value, as the sorting lemmas of vstd take it.
pub open spec fn key_order() -> spec_fn(Seq<char>, Seq<char>) -> bool {
    |a: Seq<char>, b: Seq<char>| key_le(a, b)
}

/// The keys of `s` in ascending key order, duplicates kept.
pub open spec fn sorted_keys(s: Seq<Seq<char>>) -> Seq<Seq<char>> {
    s.sort_by(key_order())
}

/// The character sequences of a sequence of strings.
pub open spec fn views(v: Seq<String>) -> Seq<Seq<char>> {
    v.map_values(|s: String| s@)
}

proof fn lemma_key_le_reflexive(a: Seq<char>)
    ensures
        key_le(a, a),
    decreases a.len(),
{
    if a.len() > 0 {
        lemma_key_le_reflexive(a.drop_first());
    }
}

proof fn lemma_key_le_antisymmetric(a: Seq<char>, b: Seq<char>)
    requires
        key_le(a, b),
        key_le(b, a),
    ensures
        a == b,
    decreases a.len(),
{
    if a.len() > 0 && b.len() > 0 {
        if a[0] == b[0] {
            lemma_key_le_antisymmetric(a.drop_first(), b.drop_first());
            assert(a =~= seq![a[0]] + a.drop_first());
            assert(b =~= seq![b[0]] + b.drop_first());
        }
    } else {
        assert(a =~= b);
    }
}

proof fn lemma_key_le_transitive(a: Seq<char>, b: Seq<char>, c: Seq<char>)
    requires
        key_le(a, b),
        key_le(b, c),
    ensures
        key_le(a, c),
    decreases a.len(),
{
    if a.len() > 0 && b.len() > 0 && c.len() > 0 && a[0] == b[0] && b[0] == c[0] {
        lemma_key_le_transitive(a.drop_first(), b.drop_first(), c.drop_first());
    }
}

proof fn lemma_key_le_connected(a: Seq<char>, b: Seq<char>)
    ensures
        key_le(a, b) || key_le(b, a),
    decreases a.len(),
{
    if a.len() > 0 && b.len() > 0 {
        lemma_key_le_connected(a.drop_first(), b.drop_first());
    }
}

/// The key order is a total order.
pub proof fn lemma_key_order_total()
    ensures
        total_ordering(key_order()),
{
    assert forall|a: Seq<char>| #[trigger] key_order()(a, a) by {
        lemma_key_le_reflexive(a);
    }
    assert forall|a: Seq<char>, b: Seq<char>|
        #[trigger] key_order()(a, b) && #[trigger] key_order()(b, a) implies a == b by {
        lemma_key_le_antisymmetric(a, b);
    }
    assert forall|a: Seq<char>, b: Seq<char>, c: Seq<char>|
        #[trigger] key_order()(a, b) && #[trigger] key_order()(b, c) implies key_order()(a, c) by {
        lemma_key_le_transitive(a, b, c);
    }
    assert forall|a: Seq<char>, b: Seq<char>|
        #[trigger] key_order()(a, b) || #[trigger] key_order()(b, a) by {
        lemma_key_le_connected(a, b);
    }
}

/// The sorted keys of two key lists taken together do not depend on which
/// list comes first: resolving the same patterns in another order gives the
/// same result, holding every key of both.
pub proof fn lemma_sorted_keys_commute(a: Seq<Seq<char>>, b: Seq<Seq<char>>)
    ensures
        sorted_keys(a + b) == sorted_keys(b + a),
        sorted_keys(a + b).len() == a.len() + b.len(),
        sorted_by(sorted_keys(a + b), key_order()),
{
    lemma_key_order_total();
    (a + b).lemma_sort_by_ensures(key_order());
    (b + a).lemma_sort_by_ensures(key_order());
    vstd::seq_lib::lemma_multiset_commutative(a, b);
    vstd::seq_lib::lemma_multiset_commutative(b, a);
    assert((a + b).to_multiset() =~= (b + a).to_multiset()) by {
        broadcast use vstd::multiset::group_multiset_axioms;
    }
    lemma_sorted_unique(sorted_keys(a + b), sorted_keys(b + a), key_order());
    vstd::seq_lib::to_multiset_len(a + b);
    vstd::seq_lib::to_multiset_len(sorted_keys(a + b));
}

/// Sorting removes no duplicate: each key occurs in the sorted keys of two
/// lists as often as in both lists together, so a key that two overlapping
/// patterns both match comes out twice.
pub proof fn lemma_sorted_keys_keep_duplicates(a: Seq<Seq<char>>, b: Seq<Seq<char>>, key: Seq<char>)
    ensures
        sorted_keys(a + b).to_multiset().count(key) == a.to_multiset().count(key)
            + b.to_multiset().count(key),
{
    broadcast use vstd::multiset::group_multiset_axioms;

    lemma_key_order_total();
    (a + b).lemma_sort_by_ensures(key_order());
    vstd::seq_lib::lemma_multiset_commutative(a, b);
}

/// The characters of `s`, one element each.
pub fn chars_of(s: &str) -> (r: Vec<char>)
    ensures
        r@ == s@,
{
    broadcast use vstd::string::axiom_spec_iter, vstd::string::next_postcondition;

    let mut it = s.chars();
    let mut out: Vec<char> = Vec::new();
    loop
        invariant
            out@ + it.remaining() == s@,
        ensures
            out@ == s@,
        decreases s@.len() - out.len(),
    {
        match it.next() {
            Some(c) => {
                out.push(c);
            },
            None => {
                assert(out@ =~= s@);
                break;
            },
        }
    }
    out
}

/// Whether `a` comes before `b` or equals it in key order.
pub fn key_le_exec(a: &Vec<char>, b: &Vec<char>) -> (r: bool)
    ensures
        r == key_le(a@, b@),
{
    let mut i: usize = 0;
    assert(a@.skip(0) =~= a@);
    assert(b@.skip(0) =~= b@);
    while i < a.len() && i < b.len()
        invariant
            i <= a.len(),
            i <= b.len(),
            key_le(a@, b@) == key_le(a@.skip(i as int), b@.skip(i as int)),
        decreases a.len() - i,
    {
        if a[i] != b[i] {
            return a[i] < b[i];
        }
        assert(a@.skip(i as int).drop_first() =~= a@.skip(i + 1));
        assert(b@.skip(i as int).drop_first() =~= b@.skip(i + 1));
        i = i + 1;
    }
    i == a.len()
}

/// The position at which `c` goes into `sorted`: past every key that is not
/// above `c`, before every key that is.
fn insertion_point(sorted: &Vec<Vec<char>>, c: &Vec<char>) -> (r: usize)
    requires
        sorted_by(sorted@.map_values(|v: Vec<char>| v@), key_order()),
    ensures
        r <= sorted.len(),
        forall|j: int| 0 <= j < r ==> key_le(#[trigger] sorted@[j]@, c@),
        forall|j: int| r <= j < sorted.len() ==> !key_le(#[trigger] sorted@[j]@, c@),
{
    proof {
        lemma_key_order_total();
    }
    let ghost sv = sorted@.map_values(|v: Vec<char>| v@);
    let mut lo: usize = 0;
    let mut hi: usize = sorted.len();
    while lo < hi
        invariant
            lo <= hi <= sorted.len(),
            sv == sorted@.map_values(|v: Vec<char>| v@),
            sorted_by(sv, key_order()),
            total_ordering(key_order()),
            forall|j: int| 0 <= j < lo ==> key_le(#[trigger] sorted@[j]@, c@),
            forall|j: int| hi <= j < sorted.len() ==> !key_le(#[trigger] sorted@[j]@, c@),
        decreases hi - lo,
    {
        let mid = lo + (hi - lo) / 2;
        let below = key_le_exec(&sorted[mid], c);
        proof {
            assert forall|j: int| 0 <= j < mid implies key_le(#[trigger] sorted@[j]@, sorted@[mid as int]@) by {
                assert(key_order()(sv[j], sv[mid as int]));
            }
            assert forall|j: int| mid < j < sorted.len() implies key_le(sorted@[mid as int]@, #[trigger] sorted@[j]@) by {
                assert(key_order()(sv[mid as int], sv[j]));
            }
        }
        if below {
            proof {
                assert forall|j: int| 0 <= j <= mid implies key_le(#[trigger] sorted@[j]@, c@) by {
                    if j < mid {
                        lemma_key_le_transitive(sorted@[j]@, sorted@[mid as int]@, c@);
                    }
                }
            }
            lo = mid + 1;
        } else {
            proof {
                assert forall|j: int| mid <= j < sorted.len() implies !key_le(#[trigger] sorted@[j]@, c@) by {
                    if j > mid && key_le(sorted@[j]@, c@) {
                        lemma_key_le_transitive(sorted@[mid as int]@, sorted@[j]@, c@);
                    }
                }
            }
            hi = mid;
        }
    }
    lo
}

/// The keys in ascending key order, duplicates kept.
pub fn sort_keys(keys: Vec<String>) -> (r: Vec<String>)
    ensures
        views(r@) == sorted_keys(views(keys@)),
{
    broadcast use vstd::seq_lib::group_to_multiset_ensures, vstd::multiset::group_multiset_axioms;

    proof {
        lemma_key_order_total();
    }
    let mut rest = keys;
    let mut out: Vec<String> = Vec::new();
    let mut out_chars: Vec<Vec<char>> = Vec::new();
    while rest.len() > 0
        invariant
            total_ordering(key_order()),
            out.len() == out_chars.len(),
            forall|j: int| 0 <= j < out.len() ==> #[trigger] out_chars@[j]@ == out@[j]@,
            out_chars@.map_values(|v: Vec<char>| v@) == views(out@),
            sorted_by(views(out@), key_order()),
            views(out@).to_multiset().add(views(rest@).to_multiset()) == views(
                keys@,
            ).to_multiset(),
        decreases rest.len(),
    {
        let ghost before = rest@;
        let key = rest.pop().unwrap();
        assert(views(before) =~= views(rest@).push(key@));
        let c = chars_of(key.as_str());
        let at = insertion_point(&out_chars, &c);
        let ghost old_out = views(out@);
        let ghost old_chars = out_chars@;
        let ghost old_rest = views(rest@);
        out.insert(at, key);
        out_chars.insert(at, c);
        proof {
            assert(views(out@) =~= old_out.insert(at as int, c@));
            assert(out_chars@.map_values(|v: Vec<char>| v@) =~= views(out@));
            assert(c@ == key@);
            vstd::seq_lib::to_multiset_insert(old_out, at as int, c@);
            vstd::seq_lib::to_multiset_build(old_rest, c@);
            assert(views(out@).to_multiset() == old_out.to_multiset().insert(c@));
            assert(views(before).to_multiset() == old_rest.to_multiset().insert(c@));
            assert(views(out@).to_multiset().add(views(rest@).to_multiset()) =~= old_out.to_multiset().add(
                views(before).to_multiset(),
            ));
            let s = views(out@);
            assert forall|i: int, j: int| 0 <= i < j < s.len() implies #[trigger] key_order()(
                s[i],
                s[j],
            ) by {
                if j < at {
                    assert(key_order()(old_out[i], old_out[j]));
                } else if i > at {
                    assert(key_order()(old_out[i - 1], old_out[j - 1]));
                } else if i == at {
                    assert(!key_le(old_chars[j - 1]@, c@));
                    lemma_key_le_connected(c@, s[j]);
                } else if j == at {
                    assert(key_le(old_chars[i]@, c@));
                } else {
                    assert(key_le(old_chars[i]@, c@));
                    assert(!key_le(old_chars[j - 1]@, c@));
                    lemma_key_le_connected(c@, s[j]);
                    lemma_key_le_transitive(s[i], c@, s[j]);
                }
            }
        }
    }
    proof {
        assert(views(rest@) =~= Seq::<Seq<char>>::empty());
        assert(views(out@).to_multiset() =~= views(keys@).to_multiset());
        views(keys@).lemma_sort_by_ensures(key_order());
        lemma_sorted_unique(views(out@), sorted_keys(views(keys@)), key_order());
    }
    out
}

} // verus!
