//! Labels taken from the fields of an event.

use vstd::prelude::*;
use vstd::string::StrSliceExecFns;
use vstd::string::StringExecFns;
use crate::label_map::LabelMap;
use crate::label_map::position_of;
use crate::labels::FormattedLabels;
use crate::labels::ValidatedLabel;
use crate::labels::LabelsModel;
use crate::labels::labels_with;
use crate::labels::no_labels;
use crate::labels::selector_text;
use crate::level::Level;
use crate::text::Pairs;

verus! {

/// Whether `k` is the first place at which `left` and `right` differ, and
/// `left` has the smaller character there or ends there.
pub open spec fn parts_at(left: Seq<char>, right: Seq<char>, k: int) -> bool {
    &&& 0 <= k <= left.len()
    &&& k <= right.len()
    &&& forall|j: int| 0 <= j < k ==> left[j] == right[j]
    &&& (k == left.len() && k < right.len()) || (k < left.len() && k < right.len() && left[k]
        < right[k])
}

/// Whether `left` comes before `right` in the order of the dictionary:
/// at the first place where they differ `left` has the smaller character,
/// or `left` ends there and `right` goes on.
pub open spec fn comes_before(left: Seq<char>, right: Seq<char>) -> bool {
    exists|k: int| parts_at(left, right, k)
}

/// Whether `left` comes before `right` in the order of the dictionary.
pub fn text_comes_before(left: &str, right: &str) -> (before: bool)
    ensures
        before == comes_before(left@, right@),
{
    let left_len = left.unicode_len();
    let right_len = right.unicode_len();
    let mut i: usize = 0;
    while i < left_len && i < right_len
        invariant
            left_len == left@.len(),
            right_len == right@.len(),
            i <= left_len,
            i <= right_len,
            forall|j: int| 0 <= j < i ==> left@[j] == right@[j],
        decreases left_len - i,
    {
        let l = left.get_char(i);
        let r = right.get_char(i);
        if l != r {
            proof {
                if l < r {
                    assert(parts_at(left@, right@, i as int));
                } else {
                    assert forall|k: int| !parts_at(left@, right@, k) by {
                        if parts_at(left@, right@, k) {
                            if k > i {
                                assert(left@[i as int] == right@[i as int]);
                            } else if k < i {
                                assert(left@[k] == right@[k]);
                            }
                        }
                    }
                }
            }
            return l < r;
        }
        i += 1;
    }
    proof {
        if left_len < right_len {
            assert(parts_at(left@, right@, left_len as int));
        } else {
            assert forall|k: int| !parts_at(left@, right@, k) by {
                if parts_at(left@, right@, k) {
                    if k < i {
                        assert(left@[k] == right@[k]);
                    }
                }
            }
        }
    }
    left_len < right_len
}

/// The labels `sorted` with `item` put before the first whose key comes
/// after its key; unchanged where a label with its key is met first.
pub open spec fn with_label(sorted: Pairs, item: (Seq<char>, Seq<char>)) -> Pairs
    decreases sorted.len(),
{
    if sorted.len() == 0 {
        seq![item]
    } else if comes_before(item.0, sorted[0].0) {
        seq![item] + sorted
    } else if item.0 == sorted[0].0 {
        sorted
    } else {
        seq![sorted[0]] + with_label(sorted.drop_first(), item)
    }
}

/// The labels `found`, ordered by key, each key with the value that was
/// found first for it.
pub open spec fn ordered_labels(found: Pairs) -> Pairs
    decreases found.len(),
{
    if found.len() == 0 {
        Seq::<(Seq<char>, Seq<char>)>::empty()
    } else {
        with_label(ordered_labels(found.drop_last()), found.last())
    }
}

/// Whether the keys of `labels` grow from each to the next, so that no
/// key stands twice.
pub open spec fn ascending(labels: Pairs) -> bool {
    forall|i: int, j: int|
        0 <= i < j < labels.len() ==> comes_before(
            (#[trigger] labels[i]).0,
            (#[trigger] labels[j]).0,
        )
}

/// The value of the first of `labels` whose key is `key`, if there is one.
pub open spec fn first_value(labels: Pairs, key: Seq<char>) -> Option<Seq<char>>
    decreases labels.len(),
{
    if labels.len() == 0 {
        None
    } else if labels[0].0 == key {
        Some(labels[0].1)
    } else {
        first_value(labels.drop_first(), key)
    }
}

/// No text comes before itself.
pub proof fn lemma_order_is_strict(text: Seq<char>)
    ensures
        !comes_before(text, text),
{
    assert forall|k: int| !parts_at(text, text, k) by {}
}

/// What comes before a text that comes before a third comes before the
/// third.
pub proof fn lemma_order_is_transitive(first: Seq<char>, second: Seq<char>, third: Seq<char>)
    requires
        comes_before(first, second),
        comes_before(second, third),
    ensures
        comes_before(first, third),
{
    let k1 = choose|k: int| parts_at(first, second, k);
    let k2 = choose|k: int| parts_at(second, third, k);
    if k1 <= k2 {
        assert forall|j: int| 0 <= j < k1 implies first[j] == third[j] by {
            assert(first[j] == second[j]);
            assert(second[j] == third[j]);
        }
        if k1 < k2 {
            assert(second[k1] == third[k1]);
        }
        assert(parts_at(first, third, k1));
    } else {
        assert forall|j: int| 0 <= j < k2 implies first[j] == third[j] by {
            assert(first[j] == second[j]);
            assert(second[j] == third[j]);
        }
        assert(first[k2] == second[k2]);
        assert(parts_at(first, third, k2));
    }
}

/// Of two texts that agree up to `from` and are not the same, one comes
/// before the other.
proof fn lemma_order_is_total_from(left: Seq<char>, right: Seq<char>, from: int)
    requires
        left != right,
        0 <= from <= left.len(),
        from <= right.len(),
        forall|j: int| 0 <= j < from ==> left[j] == right[j],
    ensures
        comes_before(left, right) || comes_before(right, left),
    decreases left.len() - from,
{
    if from == left.len() {
        if from == right.len() {
            assert(left =~= right);
        } else {
            assert(parts_at(left, right, from));
        }
    } else if from == right.len() {
        assert forall|j: int| 0 <= j < from implies right[j] == left[j] by {
            assert(left[j] == right[j]);
        }
        assert(parts_at(right, left, from));
    } else if left[from] < right[from] {
        assert(parts_at(left, right, from));
    } else if right[from] < left[from] {
        assert forall|j: int| 0 <= j < from implies right[j] == left[j] by {
            assert(left[j] == right[j]);
        }
        assert(parts_at(right, left, from));
    } else {
        assert(left[from] == right[from]);
        lemma_order_is_total_from(left, right, from + 1);
    }
}

/// Of two texts that are not the same, one comes before the other.
pub proof fn lemma_order_is_total(left: Seq<char>, right: Seq<char>)
    requires
        left != right,
    ensures
        comes_before(left, right) || comes_before(right, left),
{
    lemma_order_is_total_from(left, right, 0);
}

/// A value found for `key` belongs to a label with that key.
proof fn lemma_first_value_has_key(labels: Pairs, key: Seq<char>)
    ensures
        first_value(labels, key).is_some() <==> exists|i: int|
            0 <= i < labels.len() && (#[trigger] labels[i]).0 == key,
    decreases labels.len(),
{
    if labels.len() > 0 {
        let rest = labels.drop_first();
        lemma_first_value_has_key(rest, key);
        if labels[0].0 != key {
            if first_value(rest, key).is_some() {
                let i = choose|i: int| 0 <= i < rest.len() && (#[trigger] rest[i]).0 == key;
                assert(labels[i + 1].0 == key);
            }
            if exists|i: int| 0 <= i < labels.len() && (#[trigger] labels[i]).0 == key {
                let i = choose|i: int| 0 <= i < labels.len() && (#[trigger] labels[i]).0 == key;
                assert(rest[i - 1].0 == key);
            }
        } else {
            assert(labels[0].0 == key);
        }
    }
}

/// Putting a label into ordered labels keeps them ordered; what results
/// holds the label and what was there, and nothing else.
pub proof fn lemma_with_label_ascends(sorted: Pairs, item: (Seq<char>, Seq<char>))
    requires
        ascending(sorted),
    ensures
        ascending(with_label(sorted, item)),
        forall|i: int|
            0 <= i < with_label(sorted, item).len() ==> (#[trigger] with_label(sorted, item)[i]).0
                == item.0 || exists|j: int|
                0 <= j < sorted.len() && sorted[j] == with_label(sorted, item)[i],
    decreases sorted.len(),
{
    let result = with_label(sorted, item);
    if sorted.len() == 0 {
    } else if comes_before(item.0, sorted[0].0) {
        assert forall|i: int, j: int| 0 <= i < j < result.len() implies comes_before(
            (#[trigger] result[i]).0,
            (#[trigger] result[j]).0,
        ) by {
            if i == 0 {
                assert(result[j] == sorted[j - 1]);
                if j > 1 {
                    assert(comes_before(sorted[0].0, sorted[j - 1].0));
                    lemma_order_is_transitive(item.0, sorted[0].0, sorted[j - 1].0);
                }
            } else {
                assert(result[i] == sorted[i - 1]);
                assert(result[j] == sorted[j - 1]);
            }
        }
        assert forall|i: int| 0 <= i < result.len() implies (#[trigger] result[i]).0 == item.0
            || exists|j: int| 0 <= j < sorted.len() && sorted[j] == result[i] by {
            if i > 0 {
                assert(sorted[i - 1] == result[i]);
            }
        }
    } else if item.0 == sorted[0].0 {
        assert forall|i: int| 0 <= i < result.len() implies (#[trigger] result[i]).0 == item.0
            || exists|j: int| 0 <= j < sorted.len() && sorted[j] == result[i] by {
            assert(sorted[i] == result[i]);
        }
    } else {
        let rest = sorted.drop_first();
        assert(ascending(rest)) by {
            assert forall|i: int, j: int| 0 <= i < j < rest.len() implies comes_before(
                (#[trigger] rest[i]).0,
                (#[trigger] rest[j]).0,
            ) by {
                assert(rest[i] == sorted[i + 1]);
                assert(rest[j] == sorted[j + 1]);
            }
        }
        lemma_with_label_ascends(rest, item);
        let inner = with_label(rest, item);
        lemma_order_is_total(item.0, sorted[0].0);
        assert(comes_before(sorted[0].0, item.0));
        assert forall|i: int| 0 <= i < inner.len() implies comes_before(
            sorted[0].0,
            (#[trigger] inner[i]).0,
        ) by {
            if inner[i].0 != item.0 {
                let j = choose|j: int| 0 <= j < rest.len() && rest[j] == inner[i];
                assert(rest[j] == sorted[j + 1]);
                assert(comes_before(sorted[0].0, sorted[j + 1].0));
            }
        }
        assert forall|i: int, j: int| 0 <= i < j < result.len() implies comes_before(
            (#[trigger] result[i]).0,
            (#[trigger] result[j]).0,
        ) by {
            assert(result[j] == inner[j - 1]);
            if i == 0 {
                assert(result[0] == sorted[0]);
            } else {
                assert(result[i] == inner[i - 1]);
            }
        }
        assert forall|i: int| 0 <= i < result.len() implies (#[trigger] result[i]).0 == item.0
            || exists|j: int| 0 <= j < sorted.len() && sorted[j] == result[i] by {
            if i == 0 {
                assert(sorted[0] == result[0]);
            } else {
                assert(result[i] == inner[i - 1]);
                if inner[i - 1].0 != item.0 {
                    let j = choose|j: int| 0 <= j < rest.len() && rest[j] == inner[i - 1];
                    assert(sorted[j + 1] == result[i]);
                }
            }
        }
    }
}

/// The labels that `finish` writes are in the order of their keys, each
/// key once.
pub proof fn lemma_ordered_labels_ascend(found: Pairs)
    ensures
        ascending(ordered_labels(found)),
    decreases found.len(),
{
    if found.len() > 0 {
        lemma_ordered_labels_ascend(found.drop_last());
        lemma_with_label_ascends(ordered_labels(found.drop_last()), found.last());
    }
}

/// Putting a label into ordered labels adds its value for its key where
/// none was kept, and changes no value that was kept.
proof fn lemma_with_label_keeps_values(
    sorted: Pairs,
    item: (Seq<char>, Seq<char>),
    key: Seq<char>,
)
    requires
        ascending(sorted),
    ensures
        first_value(with_label(sorted, item), key) == if first_value(sorted, key).is_some() {
            first_value(sorted, key)
        } else if key == item.0 {
            Some(item.1)
        } else {
            None
        },
    decreases sorted.len(),
{
    let result = with_label(sorted, item);
    if sorted.len() == 0 {
        assert(result.drop_first() =~= sorted);
    } else if comes_before(item.0, sorted[0].0) {
        assert(result.drop_first() =~= sorted);
        if key == item.0 {
            lemma_first_value_has_key(sorted, key);
            if first_value(sorted, key).is_some() {
                let i = choose|i: int| 0 <= i < sorted.len() && (#[trigger] sorted[i]).0 == key;
                if i > 0 {
                    assert(comes_before(sorted[0].0, sorted[i].0));
                    lemma_order_is_transitive(item.0, sorted[0].0, sorted[i].0);
                }
                lemma_order_is_strict(key);
            }
        }
    } else if item.0 == sorted[0].0 {
    } else {
        let rest = sorted.drop_first();
        assert(ascending(rest)) by {
            assert forall|i: int, j: int| 0 <= i < j < rest.len() implies comes_before(
                (#[trigger] rest[i]).0,
                (#[trigger] rest[j]).0,
            ) by {
                assert(rest[i] == sorted[i + 1]);
                assert(rest[j] == sorted[j + 1]);
            }
        }
        lemma_with_label_keeps_values(rest, item, key);
        assert(result.drop_first() =~= with_label(rest, item));
    }
}

/// Putting a label after others adds its value for its key where none
/// was found, and changes no value that was found.
proof fn lemma_push_keeps_values(labels: Pairs, item: (Seq<char>, Seq<char>), key: Seq<char>)
    ensures
        first_value(labels.push(item), key) == if first_value(labels, key).is_some() {
            first_value(labels, key)
        } else if key == item.0 {
            Some(item.1)
        } else {
            None
        },
    decreases labels.len(),
{
    let pushed = labels.push(item);
    if labels.len() == 0 {
        assert(pushed.drop_first() =~= labels);
    } else {
        assert(pushed[0] == labels[0]);
        assert(pushed.drop_first() =~= labels.drop_first().push(item));
        if labels[0].0 != key {
            lemma_push_keeps_values(labels.drop_first(), item, key);
        }
    }
}

/// The labels that `finish` writes hold, for every key, the value that
/// was found first for it, and no key for which none was found.
pub proof fn lemma_ordered_labels_keep_first(found: Pairs, key: Seq<char>)
    ensures
        first_value(ordered_labels(found), key) == first_value(found, key),
    decreases found.len(),
{
    if found.len() > 0 {
        let front = found.drop_last();
        lemma_ordered_labels_keep_first(front, key);
        lemma_ordered_labels_ascend(front);
        lemma_with_label_keeps_values(ordered_labels(front), found.last(), key);
        lemma_push_keeps_values(front, found.last(), key);
        assert(front.push(found.last()) =~= found);
    }
}

/// The labels after all of `items` were added in order.
pub open spec fn labels_with_all(labels: LabelsModel, items: Pairs) -> LabelsModel
    decreases items.len(),
{
    if items.len() == 0 {
        labels
    } else {
        labels_with(labels_with_all(labels, items.drop_last()), items.last())
    }
}

/// The selector of the severity `level` with the labels `found`.
pub open spec fn selector_of(found: Pairs, level: Level) -> Seq<char> {
    selector_text(labels_with_all(no_labels(), ordered_labels(found)), level)
}

/// The views of labels and their values, one for one.
pub open spec fn labels_view(found: Seq<(ValidatedLabel, String)>) -> Pairs {
    Seq::new(found.len(), |i: int| (found[i].0@, found[i].1@))
}

/// Collects, from the fields of an event, those that are to become labels.
pub struct LabelSelectorVisitor<'a> {
    select_keys: &'a LabelMap<ValidatedLabel>,
    found_labels: Vec<(ValidatedLabel, String)>,
}

impl<'a> LabelSelectorVisitor<'a> {
    /// The table that says which field becomes which label.
    pub closed spec fn select_keys(&self) -> &'a LabelMap<ValidatedLabel> {
        self.select_keys
    }

    /// The labels found so far, with their values, in the order in which
    /// they were found.
    pub closed spec fn found(&self) -> Pairs {
        labels_view(self.found_labels@)
    }

    /// A visitor that has found nothing yet. The fields named in
    /// `select_keys` become the labels kept for them there.
    pub fn new(select_keys: &'a LabelMap<ValidatedLabel>) -> (visitor: Self)
        ensures
            visitor.select_keys() == select_keys,
            visitor.found() == Seq::<(Seq<char>, Seq<char>)>::empty(),
    {
        let visitor = LabelSelectorVisitor { select_keys, found_labels: Vec::new() };
        assert(visitor.found() =~= Seq::<(Seq<char>, Seq<char>)>::empty());
        visitor
    }

    /// Takes note of the field `field` with the text `value`: where the
    /// field is one that becomes a label, the label is found with that
    /// value.
    pub fn record_str(&mut self, field: &str, value: &str)
        requires
            old(self).select_keys().wf(),
        ensures
            final(self).select_keys() == old(self).select_keys(),
            old(self).select_keys().contains_key(field@) ==> final(self).found() == old(
                self,
            ).found().push(
                (
                    old(self).select_keys().slots()[position_of(
                        old(self).select_keys().keys(),
                        field@,
                    )]@,
                    value@,
                ),
            ),
            !old(self).select_keys().contains_key(field@) ==> final(self).found() == old(
                self,
            ).found(),
    {
        match self.select_keys.get(field) {
            Some(validated) => {
                let label = validated.clone();
                self.found_labels.push((label, String::from_str(value)));
                assert(self.found() =~= old(self).found().push((label@, value@)));
            },
            None => {},
        }
    }

    /// The selector of the severity `level` with the labels that were
    /// found: ordered by key, each with the value found first for it.
    pub fn finish(self, level: Level) -> (selector: String)
        ensures
            selector@ == selector_of(self.found(), level),
            ascending(ordered_labels(self.found())),
            forall|key: Seq<char>|
                #[trigger] first_value(ordered_labels(self.found()), key) == first_value(
                    self.found(),
                    key,
                ),
    {
        proof {
            lemma_ordered_labels_ascend(self.found());
            assert forall|key: Seq<char>|
                #[trigger] first_value(ordered_labels(self.found()), key) == first_value(
                    self.found(),
                    key,
                ) by {
                lemma_ordered_labels_keep_first(self.found(), key);
            }
        }
        let mut sorted: Vec<(ValidatedLabel, String)> = Vec::new();
        let found = self.found_labels;
        let ghost all = labels_view(found@);
        let mut i: usize = 0;
        assert(labels_view(sorted@) =~= ordered_labels(all.take(0)));
        while i < found.len()
            invariant
                i <= found@.len(),
                all == labels_view(found@),
                labels_view(sorted@) == ordered_labels(all.take(i as int)),
            decreases found@.len() - i,
        {
            let key = found[i].0.clone();
            let value = found[i].1.clone();
            proof {
                assert(all.take(i + 1).drop_last() =~= all.take(i as int));
                assert(all.take(i + 1).last() == (key@, value@));
            }
            insert_label(&mut sorted, key, value);
            i += 1;
        }
        assert(all.take(i as int) =~= all);
        let mut labels = FormattedLabels::new();
        let mut j: usize = 0;
        let ghost ordered = labels_view(sorted@);
        while j < sorted.len()
            invariant
                j <= sorted@.len(),
                ordered == labels_view(sorted@),
                labels@ == labels_with_all(no_labels(), ordered.take(j as int)),
            decreases sorted@.len() - j,
        {
            let key = sorted[j].0.clone();
            proof {
                assert(ordered.take(j + 1).drop_last() =~= ordered.take(j as int));
                assert(ordered.take(j + 1).last() == (key@, sorted@[j as int].1@));
            }
            match labels.add(key, sorted[j].1.as_str()) {
                Ok(()) => {},
                Err(_) => {},
            }
            j += 1;
        }
        assert(ordered.take(j as int) =~= ordered);
        labels.finish(level)
    }
}

/// Puts the label `key` with `value` into `sorted` at its place in the
/// order of the keys, unless a label with that key is met first.
fn insert_label(sorted: &mut Vec<(ValidatedLabel, String)>, key: ValidatedLabel, value: String)
    ensures
        labels_view(final(sorted)@) == with_label(labels_view(old(sorted)@), (key@, value@)),
{
    let ghost before = labels_view(sorted@);
    let ghost item = (key@, value@);
    let mut place: usize = 0;
    let mut found_place = false;
    let mut duplicate = false;
    proof {
        assert(before.skip(0) =~= before);
        assert(before.take(0) + with_label(before, item) =~= with_label(before, item));
    }
    while place < sorted.len() && !found_place && !duplicate
        invariant
            place <= sorted@.len(),
            before == labels_view(sorted@),
            sorted@ == old(sorted)@,
            item == (key@, value@),
            !(found_place && duplicate),
            found_place ==> place < sorted@.len() && comes_before(item.0, before[place as int].0),
            duplicate ==> place < sorted@.len() && !comes_before(item.0, before[place as int].0)
                && item.0 == before[place as int].0,
            with_label(before, item) == before.take(place as int) + with_label(
                before.skip(place as int),
                item,
            ),
        decreases sorted@.len() - place + (if found_place || duplicate { 0int } else { 1int }),
    {
        let here = sorted[place].0.inner();
        if text_comes_before(key.inner(), here) {
            found_place = true;
        } else if same_key(key.inner(), here) {
            duplicate = true;
        } else {
            proof {
                let rest = before.skip(place as int);
                assert(rest[0] == before[place as int]);
                assert(rest.drop_first() =~= before.skip(place + 1));
                assert(before.take(place as int) + (seq![rest[0]] + with_label(
                    before.skip(place + 1),
                    item,
                )) =~= before.take(place + 1) + with_label(before.skip(place + 1), item));
            }
            place += 1;
        }
    }
    proof {
        let rest = before.skip(place as int);
        if place < sorted@.len() {
            assert(rest[0] == before[place as int]);
        } else {
            assert(rest.len() == 0);
        }
    }
    if duplicate {
        proof {
            assert(before.take(place as int) + before.skip(place as int) =~= before);
        }
        return ;
    }
    sorted.insert(place, (key, value));
    proof {
        let rest = before.skip(place as int);
        assert(labels_view(sorted@) =~= before.take(place as int) + (seq![item] + rest));
        if rest.len() == 0 {
            assert(seq![item] + rest =~= seq![item]);
        }
    }
}

/// Whether the two keys are the same.
fn same_key(left: &str, right: &str) -> (same: bool)
    ensures
        same == (left@ == right@),
{
    let left = String::from_str(left);
    let right = String::from_str(right);
    left == right
}

} // verus!
