use vstd::prelude::*;

use crate::text::{chars_of, same_text};

verus! {

broadcast use vstd::seq_lib::group_to_multiset_ensures;

/// What the keyboard watchers report.
#[derive(Clone, Debug)]
pub enum CaptureEvent {
    /// A physical key went down.
    KeyPress,
    /// The names of the keyboards now watched, sorted.
    Devices(Vec<String>),
}

/// Whether an input event is a key going down: a key event with value 1
/// (0 is a release and 2 an auto-repeat).
pub fn is_key_down(is_key_event: bool, value: i32) -> (down: bool)
    ensures
        down == (is_key_event && value == 1),
{
    is_key_event && value == 1
}

/// `a` sorts before or with `b`, character by character (the order of
/// `String`).
pub open spec fn text_le(a: Seq<char>, b: Seq<char>) -> bool
    decreases a.len(),
{
    if a.len() == 0 {
        true
    } else if b.len() == 0 {
        false
    } else if a[0] != b[0] {
        a[0] < b[0]
    } else {
        text_le(a.drop_first(), b.drop_first())
    }
}

proof fn lemma_text_le_total(a: Seq<char>, b: Seq<char>)
    ensures
        text_le(a, b) || text_le(b, a),
    decreases a.len(),
{
    if a.len() > 0 && b.len() > 0 && a[0] == b[0] {
        lemma_text_le_total(a.drop_first(), b.drop_first());
    }
}

proof fn lemma_text_le_transitive(a: Seq<char>, b: Seq<char>, c: Seq<char>)
    requires
        text_le(a, b),
        text_le(b, c),
    ensures
        text_le(a, c),
    decreases a.len(),
{
    if a.len() > 0 && b.len() > 0 && c.len() > 0 && a[0] == b[0] && b[0] == c[0] {
        lemma_text_le_transitive(a.drop_first(), b.drop_first(), c.drop_first());
    }
}

/// Whether `a` sorts before or with `b`.
fn text_at_most(a: &String, b: &String) -> (le: bool)
    ensures
        le == text_le(a@, b@),
{
    let x = chars_of(a.as_str());
    let y = chars_of(b.as_str());
    let mut i: usize = 0;
    assert(x@.skip(0) =~= x@);
    assert(y@.skip(0) =~= y@);
    while i < x.len() && i < y.len() && x[i] == y[i]
        invariant
            x@ == a@,
            y@ == b@,
            i <= x.len(),
            i <= y.len(),
            text_le(a@, b@) == text_le(x@.skip(i as int), y@.skip(i as int)),
        decreases x.len() - i,
    {
        assert(x@.skip(i as int).drop_first() =~= x@.skip(i + 1));
        assert(y@.skip(i as int).drop_first() =~= y@.skip(i + 1));
        i = i + 1;
    }
    if i == x.len() {
        true
    } else if i == y.len() {
        false
    } else {
        x[i] < y[i]
    }
}

/// Names in non-decreasing order.
pub open spec fn texts_sorted(s: Seq<String>) -> bool {
    forall|i: int, j: int| 0 <= i < j < s.len() ==> text_le(#[trigger] s[i]@, #[trigger] s[j]@)
}

/// The device names in sorted order, as the device report lists them.
pub fn sorted_device_names(names: Vec<String>) -> (sorted: Vec<String>)
    ensures
        texts_sorted(sorted@),
        sorted@.to_multiset() == names@.to_multiset(),
{
    let mut sorted: Vec<String> = Vec::new();
    let mut k: usize = 0;
    while k < names.len()
        invariant
            k <= names.len(),
            texts_sorted(sorted@),
            sorted@.to_multiset() == names@.take(k as int).to_multiset(),
        decreases names.len() - k,
    {
        let name = names[k].clone();
        let mut p: usize = 0;
        while p < sorted.len() && text_at_most(&sorted[p], &name)
            invariant
                p <= sorted.len(),
                forall|i: int| 0 <= i < p ==> text_le(#[trigger] sorted@[i]@, name@),
            decreases sorted.len() - p,
        {
            p = p + 1;
        }
        let ghost before = sorted@;
        proof {
            if p < before.len() {
                lemma_text_le_total(before[p as int]@, name@);
            }
        }
        sorted.insert(p, name);
        proof {
            assert forall|i: int, j: int| 0 <= i < j < sorted@.len() implies text_le(
                #[trigger] sorted@[i]@,
                #[trigger] sorted@[j]@,
            ) by {
                if j == p {
                    assert(sorted@[i] == before[i]);
                } else if i == p {
                    assert(sorted@[j] == before[j - 1]);
                    if j - 1 > p {
                        lemma_text_le_transitive(name@, before[p as int]@, before[j - 1]@);
                    }
                } else {
                    let bi = if i < p { i } else { i - 1 };
                    let bj = if j < p { j } else { j - 1 };
                    assert(sorted@[i] == before[bi]);
                    assert(sorted@[j] == before[bj]);
                }
            }
            assert(names@.take(k + 1) =~= names@.take(k as int).push(names@[k as int]));
            vstd::seq_lib::to_multiset_insert(before, p as int, names@[k as int]);
        }
        k = k + 1;
    }
    assert(names@.take(names.len() as int) =~= names@);
    sorted
}

/// Whether two device reports differ.
pub fn reports_differ(report: &Vec<String>, last: &Vec<String>) -> (differ: bool)
    ensures
        differ == (report@.map_values(|s: String| s@) != last@.map_values(|s: String| s@)),
{
    let ghost a = report@.map_values(|s: String| s@);
    let ghost b = last@.map_values(|s: String| s@);
    if report.len() != last.len() {
        assert(a.len() != b.len());
        return true;
    }
    let mut i: usize = 0;
    while i < report.len()
        invariant
            report@.len() == last@.len(),
            a == report@.map_values(|s: String| s@),
            b == last@.map_values(|s: String| s@),
            i <= report.len(),
            forall|k: int| 0 <= k < i ==> a[k] == b[k],
        decreases report.len() - i,
    {
        if !same_text(report[i].as_str(), last[i].as_str()) {
            assert(a[i as int] != b[i as int]);
            return true;
        }
        i = i + 1;
    }
    assert(a =~= b);
    false
}

} // verus!
