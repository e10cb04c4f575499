//! Text ordering: the code-point lexicographic order `String` compares by,
//! a stable ordering of labels ignoring ASCII case (desktop icons), and the
//! sorted, duplicate-free listing of names (theme packs).

use vstd::prelude::*;

use crate::text::{chars_of, lower, lower_chars, string_views};

verus! {

/// `a` sorts strictly before `b`: at their first difference `a` has the
/// smaller character, or `a` is a proper prefix of `b`.
pub open spec fn text_lt(a: Seq<char>, b: Seq<char>) -> bool
    decreases a.len(),
{
    if a.len() == 0 {
        b.len() > 0
    } else if b.len() == 0 {
        false
    } else if a[0] < b[0] {
        true
    } else if a[0] == b[0] {
        text_lt(a.drop_first(), b.drop_first())
    } else {
        false
    }
}

pub proof fn lemma_text_lt_irreflexive(a: Seq<char>)
    ensures
        !text_lt(a, a),
    decreases a.len(),
{
    if a.len() > 0 {
        lemma_text_lt_irreflexive(a.drop_first());
    }
}

pub proof fn lemma_text_lt_transitive(a: Seq<char>, b: Seq<char>, c: Seq<char>)
    requires
        text_lt(a, b),
        text_lt(b, c),
    ensures
        text_lt(a, c),
    decreases a.len(),
{
    if a.len() > 0 && b.len() > 0 && c.len() > 0 {
        if a[0] == b[0] && b[0] == c[0] {
            lemma_text_lt_transitive(a.drop_first(), b.drop_first(), c.drop_first());
        }
    }
}

pub proof fn lemma_text_lt_total(a: Seq<char>, b: Seq<char>)
    ensures
        a == b || text_lt(a, b) || text_lt(b, a),
    decreases a.len(),
{
    if a.len() > 0 && b.len() > 0 && a[0] == b[0] {
        lemma_text_lt_total(a.drop_first(), b.drop_first());
        if a.drop_first() == b.drop_first() {
            assert(a =~= seq![a[0]] + a.drop_first());
            assert(b =~= seq![b[0]] + b.drop_first());
        }
    } else if a.len() > 0 && b.len() > 0 {
    } else if a.len() == 0 && b.len() == 0 {
        assert(a =~= b);
    }
}

pub proof fn lemma_text_lt_asymmetric(a: Seq<char>, b: Seq<char>)
    requires
        text_lt(a, b),
    ensures
        !text_lt(b, a),
{
    if text_lt(b, a) {
        lemma_text_lt_transitive(a, b, a);
        lemma_text_lt_irreflexive(a);
    }
}

/// Whether `a` sorts strictly before `b`.
pub fn text_less(a: &[char], b: &[char]) -> (less: bool)
    ensures
        less == text_lt(a@, b@),
{
    let mut i: usize = 0;
    assert(a@.skip(0) =~= a@ && b@.skip(0) =~= b@);
    while i < a.len() && i < b.len()
        invariant
            0 <= i <= a@.len(),
            i <= b@.len(),
            forall|k: int| 0 <= k < i ==> a@[k] == b@[k],
            text_lt(a@, b@) == text_lt(a@.skip(i as int), b@.skip(i as int)),
        decreases a@.len() - i,
    {
        let x = a[i];
        let y = b[i];
        assert(a@.skip(i as int)[0] == x && b@.skip(i as int)[0] == y);
        if x < y {
            return true;
        }
        if x != y {
            return false;
        }
        assert(a@.skip(i as int).drop_first() =~= a@.skip(i + 1));
        assert(b@.skip(i as int).drop_first() =~= b@.skip(i + 1));
        i = i + 1;
    }
    i == a.len() && i < b.len()
}

/// Label `x` of `labels` is shown before label `y`: its lower-cased text
/// sorts first, or the texts are equal and it came first.
pub open spec fn label_before(labels: Seq<Seq<char>>, x: int, y: int) -> bool {
    text_lt(lower(labels[x]), lower(labels[y])) || (lower(labels[x]) == lower(labels[y]) && x < y)
}

/// `order` lists every position of `labels` once, in display order.
pub open spec fn is_label_order(labels: Seq<Seq<char>>, order: Seq<int>) -> bool {
    &&& order.len() == labels.len()
    &&& forall|k: int| 0 <= k < order.len() ==> 0 <= #[trigger] order[k] < labels.len()
    &&& forall|i: int| 0 <= i < labels.len() ==> #[trigger] order.contains(i)
    &&& forall|k: int, l: int| 0 <= k < l < order.len() ==> label_before(labels, #[trigger] order[k], #[trigger] order[l])
}

proof fn lemma_label_before_transitive(labels: Seq<Seq<char>>, x: int, y: int, z: int)
    requires
        label_before(labels, x, y),
        label_before(labels, y, z),
    ensures
        label_before(labels, x, z),
{
    let (a, b, c) = (lower(labels[x]), lower(labels[y]), lower(labels[z]));
    if text_lt(a, b) && text_lt(b, c) {
        lemma_text_lt_transitive(a, b, c);
    }
}

proof fn lemma_label_before_irreflexive(labels: Seq<Seq<char>>, x: int)
    ensures
        !label_before(labels, x, x),
{
    lemma_text_lt_irreflexive(lower(labels[x]));
}

proof fn lemma_label_before_asymmetric(labels: Seq<Seq<char>>, x: int, y: int)
    requires
        label_before(labels, x, y),
    ensures
        !label_before(labels, y, x),
{
    let (a, b) = (lower(labels[x]), lower(labels[y]));
    if text_lt(a, b) {
        lemma_text_lt_asymmetric(a, b);
        if a == b {
            lemma_text_lt_irreflexive(a);
        }
    } else {
        lemma_text_lt_irreflexive(a);
    }
}

proof fn lemma_label_orders_agree_below(labels: Seq<Seq<char>>, o1: Seq<int>, o2: Seq<int>, k: int)
    requires
        is_label_order(labels, o1),
        is_label_order(labels, o2),
        0 <= k <= o1.len(),
    ensures
        forall|m: int| 0 <= m < k ==> #[trigger] o1[m] == o2[m],
    decreases k,
{
    if k > 0 {
        lemma_label_orders_agree_below(labels, o1, o2, k - 1);
        let j = k - 1;
        let a = o1[j];
        let b = o2[j];
        if a != b {
            assert(o2.contains(a));
            let m = choose|m: int| 0 <= m < o2.len() && o2[m] == a;
            assert(o1.contains(b));
            let m2 = choose|m: int| 0 <= m < o1.len() && o1[m] == b;
            if m < j {
                assert(o1[m] == o2[m]);
                assert(label_before(labels, o1[m], o1[j]));
                lemma_label_before_irreflexive(labels, a);
            } else if m2 < j {
                assert(o1[m2] == o2[m2]);
                assert(label_before(labels, o2[m2], o2[j]));
                lemma_label_before_irreflexive(labels, b);
            } else {
                assert(m > j && m2 > j);
                assert(label_before(labels, o2[j], o2[m]));
                assert(label_before(labels, o1[j], o1[m2]));
                lemma_label_before_asymmetric(labels, a, b);
            }
        }
    }
}

/// The display order is determined by the labels alone: any two orders
/// that list every label once, sorted by lower-cased text with ties kept
/// in their initial order, are the same order.
pub proof fn label_order_is_unique(labels: Seq<Seq<char>>, o1: Seq<int>, o2: Seq<int>)
    requires
        is_label_order(labels, o1),
        is_label_order(labels, o2),
    ensures
        o1 == o2,
{
    lemma_label_orders_agree_below(labels, o1, o2, o1.len() as int);
    assert(o1 =~= o2);
}

/// The display order of `labels`: sorted by their ASCII-lower-cased text,
/// ties kept in their initial order (`slice::sort_by_key`, which is stable).
pub fn label_order(labels: &Vec<String>) -> (order: Vec<usize>)
    ensures
        is_label_order(string_views(labels@), order@.map_values(|p: usize| p as int)),
{
    let ghost views = string_views(labels@);
    let mut keys: Vec<Vec<char>> = Vec::new();
    let mut j: usize = 0;
    while j < labels.len()
        invariant
            0 <= j <= labels@.len(),
            views == string_views(labels@),
            keys@.len() == j,
            forall|k: int| 0 <= k < j ==> (#[trigger] keys@[k])@ == lower(views[k]),
        decreases labels@.len() - j,
    {
        let chars = chars_of(labels[j].as_str());
        keys.push(lower_chars(&chars));
        j = j + 1;
    }
    let n = labels.len();
    let mut order: Vec<usize> = Vec::new();
    let mut i: usize = 0;
    while i < n
        invariant
            0 <= i <= n,
            n == labels@.len(),
            views == string_views(labels@),
            keys@.len() == n,
            forall|k: int| 0 <= k < n ==> (#[trigger] keys@[k])@ == lower(views[k]),
            order@.len() == i,
            forall|k: int| 0 <= k < order@.len() ==> #[trigger] order@[k] < i,
            forall|j: int| 0 <= j < i ==> #[trigger] order@.contains(j as usize),
            forall|k: int, l: int|
                0 <= k < l < order@.len() ==> label_before(views, #[trigger] order@[k] as int, #[trigger] order@[l] as int),
        decreases n - i,
    {
        let mut slot: usize = 0;
        while slot < order.len()
            invariant
                0 <= slot <= order@.len(),
                order@.len() == i,
                i < n,
                n == labels@.len(),
                keys@.len() == n,
                forall|k: int| 0 <= k < n ==> (#[trigger] keys@[k])@ == lower(views[k]),
                forall|k: int| 0 <= k < order@.len() ==> #[trigger] order@[k] < i,
                forall|k: int| 0 <= k < slot ==> label_before(views, #[trigger] order@[k] as int, i as int),
            ensures
                0 <= slot <= order@.len(),
                forall|k: int| 0 <= k < slot ==> label_before(views, #[trigger] order@[k] as int, i as int),
                slot < order@.len() ==> label_before(views, i as int, order@[slot as int] as int),
            decreases order@.len() - slot,
        {
            let p = order[slot];
            if text_less(&keys[i], &keys[p]) {
                break;
            }
            proof {
                lemma_text_lt_total(lower(views[i as int]), lower(views[p as int]));
            }
            slot = slot + 1;
        }
        proof {
            assert forall|k: int| slot <= k < order@.len() implies label_before(views, i as int, #[trigger] order@[k] as int) by {
                if k > slot {
                    lemma_label_before_transitive(views, i as int, order@[slot as int] as int, order@[k] as int);
                }
            }
        }
        let ghost before = order@;
        order.insert(slot, i);
        proof {
            assert forall|j: int| 0 <= j < i + 1 implies #[trigger] order@.contains(j as usize) by {
                if j < i {
                    assert(before.contains(j as usize));
                    let w = choose|w: int| 0 <= w < before.len() && before[w] == j as usize;
                    if w < slot {
                        assert(order@[w] == j as usize);
                    } else {
                        assert(order@[w + 1] == j as usize);
                    }
                } else {
                    assert(order@[slot as int] == i);
                }
            }
        }
        i = i + 1;
    }
    let ghost positions = order@.map_values(|p: usize| p as int);
    assert forall|j: int| 0 <= j < views.len() implies #[trigger] positions.contains(j) by {
        assert(order@.contains(j as usize));
        let w = choose|w: int| 0 <= w < order@.len() && order@[w] == j as usize;
        assert(positions[w] == j);
    }
    order
}

/// `names` is strictly increasing in text order, so it has no duplicates.
pub open spec fn strictly_sorted(names: Seq<Seq<char>>) -> bool {
    forall|k: int, l: int| 0 <= k < l < names.len() ==> text_lt(#[trigger] names[k], #[trigger] names[l])
}

/// Inserting `key` at `slot` into a strictly sorted sequence, between the
/// elements smaller and larger than it, keeps it strictly sorted and adds
/// exactly `key` to its elements.
proof fn lemma_insert_keeps_sorted(current: Seq<Seq<char>>, slot: int, key: Seq<char>)
    requires
        0 <= slot <= current.len(),
        strictly_sorted(current),
        forall|k: int| 0 <= k < slot ==> text_lt(#[trigger] current[k], key),
        forall|k: int| slot <= k < current.len() ==> text_lt(key, #[trigger] current[k]),
    ensures
        strictly_sorted(current.insert(slot, key)),
        current.insert(slot, key).to_set() == current.to_set().insert(key),
{
    let updated = current.insert(slot, key);
    assert forall|k: int, l: int| 0 <= k < l < updated.len() implies text_lt(#[trigger] updated[k], #[trigger] updated[l]) by {
        if k < slot && l == slot {
        } else if k < slot && l > slot {
            assert(updated[l] == current[l - 1]);
        } else if k == slot {
            assert(updated[l] == current[l - 1]);
        } else if k > slot {
            assert(updated[k] == current[k - 1] && updated[l] == current[l - 1]);
        }
    }
    assert forall|x: Seq<char>| #[trigger] updated.to_set().contains(x) == current.to_set().insert(key).contains(x) by {
        broadcast use vstd::seq_lib::group_seq_properties;
        if updated.contains(x) {
            let w = choose|w: int| 0 <= w < updated.len() && updated[w] == x;
            if w < slot {
                assert(current[w] == x);
            } else if w > slot {
                assert(current[w - 1] == x);
            }
        }
        if current.contains(x) {
            let w = choose|w: int| 0 <= w < current.len() && current[w] == x;
            if w < slot {
                assert(updated[w] == x);
            } else {
                assert(updated[w + 1] == x);
            }
        }
        if x == key {
            assert(updated[slot] == x);
        }
    }
    assert(updated.to_set() =~= current.to_set().insert(key));
}

proof fn lemma_strictly_sorted_no_duplicates(names: Seq<Seq<char>>)
    requires
        strictly_sorted(names),
    ensures
        names.no_duplicates(),
{
    assert forall|i: int, j: int| 0 <= i < names.len() && 0 <= j < names.len() && i != j implies names[i] != names[j] by {
        if i < j {
            lemma_text_lt_irreflexive(names[i]);
        } else {
            lemma_text_lt_irreflexive(names[j]);
        }
    }
}

proof fn lemma_sorted_agree_below(s1: Seq<Seq<char>>, s2: Seq<Seq<char>>, k: int)
    requires
        strictly_sorted(s1),
        strictly_sorted(s2),
        s1.to_set() == s2.to_set(),
        s1.len() == s2.len(),
        0 <= k <= s1.len(),
    ensures
        forall|m: int| 0 <= m < k ==> #[trigger] s1[m] == s2[m],
    decreases k,
{
    broadcast use vstd::seq_lib::group_seq_properties;

    if k > 0 {
        lemma_sorted_agree_below(s1, s2, k - 1);
        let j = k - 1;
        let a = s1[j];
        let b = s2[j];
        if a != b {
            assert(s1.to_set().contains(a));
            assert(s2.contains(a));
            let m = choose|m: int| 0 <= m < s2.len() && s2[m] == a;
            assert(s2.to_set().contains(b));
            assert(s1.contains(b));
            let m2 = choose|m: int| 0 <= m < s1.len() && s1[m] == b;
            if m < j {
                assert(s1[m] == s2[m]);
                assert(text_lt(s1[m], s1[j]));
                lemma_text_lt_irreflexive(a);
            } else if m2 < j {
                assert(s1[m2] == s2[m2]);
                assert(text_lt(s2[m2], s2[j]));
                lemma_text_lt_irreflexive(b);
            } else {
                assert(m > j && m2 > j);
                assert(text_lt(s2[j], s2[m]));
                assert(text_lt(s1[j], s1[m2]));
                lemma_text_lt_asymmetric(a, b);
            }
        }
    }
}

/// A sorted listing without duplicates is determined by the names it
/// holds: two strictly sorted sequences with the same names are equal.
pub proof fn sorted_listing_is_unique(s1: Seq<Seq<char>>, s2: Seq<Seq<char>>)
    requires
        strictly_sorted(s1),
        strictly_sorted(s2),
        s1.to_set() == s2.to_set(),
    ensures
        s1 == s2,
{
    lemma_strictly_sorted_no_duplicates(s1);
    lemma_strictly_sorted_no_duplicates(s2);
    s1.unique_seq_to_set();
    s2.unique_seq_to_set();
    lemma_sorted_agree_below(s1, s2, s1.len() as int);
    assert(s1 =~= s2);
}

/// `names` in text order with duplicates removed (what collecting them
/// into a `BTreeSet` and back gives).
pub fn sorted_unique(names: Vec<String>) -> (sorted: Vec<String>)
    ensures
        strictly_sorted(string_views(sorted@)),
        string_views(sorted@).to_set() == string_views(names@).to_set(),
{
    let ghost input = string_views(names@);
    let mut sorted: Vec<String> = Vec::new();
    let mut keys: Vec<Vec<char>> = Vec::new();
    let mut i: usize = 0;
    while i < names.len()
        invariant
            0 <= i <= names@.len(),
            input == string_views(names@),
            keys@.len() == sorted@.len(),
            forall|k: int| 0 <= k < keys@.len() ==> (#[trigger] keys@[k])@ == sorted@[k]@,
            strictly_sorted(string_views(sorted@)),
            string_views(sorted@).to_set() == input.take(i as int).to_set(),
        decreases names@.len() - i,
    {
        let key = chars_of(names[i].as_str());
        let ghost current = string_views(sorted@);
        let mut slot: usize = 0;
        let mut duplicate = false;
        while slot < sorted.len()
            invariant_except_break
                !duplicate,
            invariant
                0 <= slot <= sorted@.len(),
                current == string_views(sorted@),
                keys@.len() == sorted@.len(),
                forall|k: int| 0 <= k < keys@.len() ==> (#[trigger] keys@[k])@ == sorted@[k]@,
                forall|k: int| 0 <= k < slot ==> text_lt(#[trigger] current[k], key@),
            ensures
                0 <= slot <= sorted@.len(),
                forall|k: int| 0 <= k < slot ==> text_lt(#[trigger] current[k], key@),
                duplicate ==> slot < sorted@.len() && current[slot as int] == key@,
                !duplicate && slot < sorted@.len() ==> text_lt(key@, current[slot as int]),
            decreases sorted@.len() - slot,
        {
            if text_less(&keys[slot], &key) {
                slot = slot + 1;
            } else {
                if !text_less(&key, &keys[slot]) {
                    proof {
                        lemma_text_lt_total(key@, current[slot as int]);
                    }
                    duplicate = true;
                }
                break;
            }
        }
        proof {
            assert(input.take(i + 1) =~= input.take(i as int).push(key@));
            assert(input.take(i + 1).to_set() =~= input.take(i as int).to_set().insert(key@)) by {
                broadcast use vstd::seq_lib::group_seq_properties;
            }
        }
        if !duplicate {
            proof {
                assert forall|k: int| slot <= k < current.len() implies text_lt(key@, #[trigger] current[k]) by {
                    if k > slot {
                        lemma_text_lt_transitive(key@, current[slot as int], current[k]);
                    }
                }
            }
            let copy = names[i].clone();
            sorted.insert(slot, copy);
            keys.insert(slot, key);
            proof {
                assert(string_views(sorted@) =~= current.insert(slot as int, key@));
                lemma_insert_keeps_sorted(current, slot as int, key@);
            }
        } else {
            proof {
                assert(current.to_set().contains(key@)) by {
                    assert(current[slot as int] == key@);
                }
                assert(current.to_set().insert(key@) =~= current.to_set());
            }
        }
        i = i + 1;
    }
    assert(input.take(input.len() as int) == input);
    sorted
}

} // verus!
