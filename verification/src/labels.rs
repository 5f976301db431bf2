//! Label keys and the label selector under which a stream is sent.

use vstd::prelude::*;
use vstd::string::StrSliceExecFns;
use vstd::string::StringExecFns;
use crate::error::Error;
use crate::error::ErrorInner;
use crate::error::ErrorModel;
use crate::level::Level;
use crate::quote::debug_quoted;
use crate::quote::quote;

verus! {

/// Whether `c` may stand in a label key: a letter of `A` to `Z` or `a` to
/// `z`, or an underscore.
pub open spec fn is_label_char(c: char) -> bool {
    ('A' <= c && c <= 'Z') || ('a' <= c && c <= 'z') || c == '_'
}

/// Whether every character of `key` may stand in a label key.
pub open spec fn all_label_chars(key: Seq<char>) -> bool {
    forall|i: int| 0 <= i < key.len() ==> is_label_char(#[trigger] key[i])
}

/// Whether `i` is the place of the first character of `key` that may not
/// stand in a label key.
pub open spec fn first_invalid_at(key: Seq<char>, i: int) -> bool {
    &&& 0 <= i < key.len()
    &&& !is_label_char(key[i])
    &&& forall|j: int| 0 <= j < i ==> is_label_char(#[trigger] key[j])
}

/// Whether `key` can be the key of a label: one label character or more,
/// and not `level`, which is kept for the severity.
pub open spec fn is_valid_label(key: Seq<char>) -> bool {
    key.len() > 0 && all_label_chars(key) && key != "level"@
}

/// The place of the first character of `key` that may not stand in a label
/// key, where there is one.
pub open spec fn first_invalid(key: Seq<char>) -> int {
    choose|i: int| first_invalid_at(key, i)
}

/// What `key` is refused for as the key of a label, if it is: for being
/// empty, for its first character that is no label character, or for
/// being `level`.
pub open spec fn key_fault(key: Seq<char>) -> Option<ErrorModel> {
    if key.len() == 0 {
        Some(ErrorModel::EmptyLabel)
    } else if !all_label_chars(key) {
        Some(ErrorModel::InvalidLabelCharacter(key, key[first_invalid(key)]))
    } else if key == "level"@ {
        Some(ErrorModel::ReservedLabelLevel)
    } else {
        None
    }
}

/// What adding a label with `key` to labels with the keys `taken` is
/// refused for, if it is: for the key itself, or for being taken.
pub open spec fn label_fault(taken: Set<Seq<char>>, key: Seq<char>) -> Option<ErrorModel> {
    if key_fault(key).is_some() {
        key_fault(key)
    } else if taken.contains(key) {
        Some(ErrorModel::DuplicateLabel(key))
    } else {
        None
    }
}

/// A label key that has passed validation.
#[derive(Debug, PartialOrd, Ord, PartialEq, Eq, Hash)]
pub struct ValidatedLabel(String);

impl View for ValidatedLabel {
    type V = Seq<char>;

    closed spec fn view(&self) -> Seq<char> {
        self.0@
    }
}

impl Clone for ValidatedLabel {
    fn clone(&self) -> (copy: ValidatedLabel)
        ensures
            copy@ == self@,
    {
        proof {
            use_type_invariant(self);
        }
        ValidatedLabel(self.0.clone())
    }
}

impl ValidatedLabel {
    #[verifier::type_invariant]
    spec fn valid(&self) -> bool {
        is_valid_label(self.0@)
    }

    /// Validates `label` as a label key.
    ///
    /// A key has one character at least. The first character that is no
    /// label character is reported; a key made of label characters is
    /// refused only where it is `level`.
    pub fn new(label: String) -> (validated: Result<ValidatedLabel, Error>)
        ensures
            validated.is_ok() <==> is_valid_label(label@),
            validated matches Ok(key) ==> key@ == label@,
            label@.len() == 0 ==> (validated matches Err(error) && error@
                == ErrorModel::EmptyLabel),
            forall|i: int|
                first_invalid_at(label@, i) ==> (validated matches Err(error) && error@
                    == ErrorModel::InvalidLabelCharacter(label@, label@[i])),
            all_label_chars(label@) && label@ == "level"@ ==> (validated matches Err(error)
                && error@ == ErrorModel::ReservedLabelLevel),
            validated matches Err(error) ==> key_fault(label@) == Some(error@),
            validated.is_ok() ==> key_fault(label@).is_none(),
    {
        let len = label.as_str().unicode_len();
        if len == 0 {
            proof {
                reveal_strlit("level");
            }
            return Err(Error(ErrorInner::EmptyLabel));
        }
        let mut i: usize = 0;
        while i < len
            invariant
                len == label@.len(),
                i <= len,
                forall|j: int| 0 <= j < i ==> is_label_char(#[trigger] label@[j]),
            decreases len - i,
        {
            let c = label.as_str().get_char(i);
            if !(('A' <= c && c <= 'Z') || ('a' <= c && c <= 'z') || c == '_') {
                assert(first_invalid_at(label@, i as int));
                assert forall|k: int| first_invalid_at(label@, k) implies k == i by {
                    if k < i {
                        assert(is_label_char(label@[k]));
                    } else if k > i {
                        assert(is_label_char(label@[i as int]));
                    }
                }
                assert(first_invalid(label@) == i);
                assert(!all_label_chars(label@));
                return Err(Error(ErrorInner::InvalidLabelCharacter(label, c)));
            }
            i += 1;
        }
        assert(all_label_chars(label@));
        proof {
            reveal_strlit("level");
        }
        let reserved = String::from_str("level");
        if label == reserved {
            return Err(Error(ErrorInner::ReservedLabelLevel));
        }
        Ok(ValidatedLabel(label))
    }

    /// The key as text.
    pub fn inner(&self) -> (key: &str)
        ensures
            key@ == self@,
            is_valid_label(key@),
    {
        proof {
            use_type_invariant(self);
        }
        self.0.as_str()
    }
}

/// The end of a finished selector: the label of the severity and the
/// closing brace.
pub open spec fn level_suffix(level: Level) -> Seq<char> {
    match level {
        Level::Trace => "level=\"trace\"}"@,
        Level::Debug => "level=\"debug\"}"@,
        Level::Info => "level=\"info\"}"@,
        Level::Warn => "level=\"warn\"}"@,
        Level::Error => "level=\"error\"}"@,
    }
}

/// What separates a label from what stands before it: a comma, or nothing
/// after the opening brace.
pub open spec fn separator(first: bool) -> Seq<char> {
    if first {
        Seq::<char>::empty()
    } else {
        ","@
    }
}

/// What a set of formatted labels holds, as mathematical values.
pub struct LabelsModel {
    /// The selector as far as it is written.
    pub formatted: Seq<char>,
    /// The keys that are taken.
    pub keys: Set<Seq<char>>,
    /// Whether no label was added yet.
    pub is_empty: bool,
}

/// No labels.
pub open spec fn no_labels() -> LabelsModel {
    LabelsModel { formatted: "{"@, keys: Set::empty(), is_empty: true }
}

/// The labels after `item`, a key and its value, was added; as they were
/// where the key is taken.
pub open spec fn labels_with(labels: LabelsModel, item: (Seq<char>, Seq<char>)) -> LabelsModel {
    if labels.keys.contains(item.0) {
        labels
    } else {
        LabelsModel {
            formatted: labels.formatted + separator(labels.is_empty) + item.0 + "="@
                + debug_quoted(item.1),
            keys: labels.keys.insert(item.0),
            is_empty: false,
        }
    }
}

/// The selector of the severity `level` with the labels `labels`.
pub open spec fn selector_text(labels: LabelsModel, level: Level) -> Seq<char> {
    labels.formatted + separator(labels.is_empty) + level_suffix(level)
}

/// The labels that every stream carries, formatted as the start of a label
/// selector, and the keys that are taken.
pub struct FormattedLabels {
    seen_keys: Vec<String>,
    formatted: String,
}

impl Clone for FormattedLabels {
    fn clone(&self) -> (copy: FormattedLabels)
        ensures
            copy@ == self@,
            self.is_empty() ==> self.formatted() == "{"@,
    {
        proof {
            use_type_invariant(self);
        }
        let mut seen_keys: Vec<String> = Vec::new();
        let mut i: usize = 0;
        while i < self.seen_keys.len()
            invariant
                i <= self.seen_keys@.len(),
                seen_keys@.len() == i,
                forall|j: int| 0 <= j < i ==> (#[trigger] seen_keys@[j])@ == self.seen_keys@[j]@,
            decreases self.seen_keys@.len() - i,
        {
            seen_keys.push(self.seen_keys[i].clone());
            i += 1;
        }
        let copy = FormattedLabels { seen_keys, formatted: self.formatted.clone() };
        assert(copy.keys() =~= self.keys()) by {
            assert forall|key: Seq<char>| copy.keys().contains(key) <==> self.keys().contains(
                key,
            ) by {
                if copy.keys().contains(key) {
                    let j = choose|j: int|
                        0 <= j < copy.seen_keys@.len() && (#[trigger] copy.seen_keys@[j])@ == key;
                    assert(self.seen_keys@[j]@ == key);
                }
                if self.keys().contains(key) {
                    let j = choose|j: int|
                        0 <= j < self.seen_keys@.len() && (#[trigger] self.seen_keys@[j])@ == key;
                    assert(copy.seen_keys@[j]@ == key);
                }
            }
        }
        copy
    }
}

impl View for FormattedLabels {
    type V = LabelsModel;

    open spec fn view(&self) -> LabelsModel {
        LabelsModel {
            formatted: self.formatted(),
            keys: self.keys(),
            is_empty: self.is_empty(),
        }
    }
}

impl FormattedLabels {
    /// Labels without a key are the opening brace alone.
    #[verifier::type_invariant]
    spec fn starts_bare(&self) -> bool {
        self.seen_keys@.len() == 0 ==> self.formatted@ == "{"@
    }

    /// The keys of the labels added so far.
    pub closed spec fn keys(&self) -> Set<Seq<char>> {
        Set::new(
            |key: Seq<char>|
                exists|i: int|
                    0 <= i < self.seen_keys@.len() && (#[trigger] self.seen_keys@[i])@ == key,
        )
    }

    /// Whether no label was added yet.
    pub closed spec fn is_empty(&self) -> bool {
        self.seen_keys@.len() == 0
    }

    /// The selector as far as it is written: the opening brace and the
    /// labels added so far.
    pub closed spec fn formatted(&self) -> Seq<char> {
        self.formatted@
    }

    /// No labels: `{`.
    pub fn new() -> (labels: FormattedLabels)
        ensures
            labels.formatted() == "{"@,
            labels.keys() == Set::<Seq<char>>::empty(),
            labels.is_empty(),
    {
        let labels = FormattedLabels { seen_keys: Vec::new(), formatted: String::from_str("{") };
        assert(labels.keys() =~= Set::<Seq<char>>::empty());
        labels
    }

    /// Whether a label with this key was added.
    pub fn contains(&self, key: &ValidatedLabel) -> (found: bool)
        ensures
            found == self.keys().contains(key@),
    {
        self.contains_key(key.inner())
    }

    /// Whether a label with this key was added.
    fn contains_key(&self, key: &str) -> (found: bool)
        ensures
            found == self.keys().contains(key@),
    {
        let wanted = String::from_str(key);
        let mut i: usize = 0;
        while i < self.seen_keys.len()
            invariant
                i <= self.seen_keys@.len(),
                wanted@ == key@,
                forall|j: int| 0 <= j < i ==> (#[trigger] self.seen_keys@[j])@ != key@,
            decreases self.seen_keys@.len() - i,
        {
            if self.seen_keys[i] == wanted {
                return true;
            }
            i += 1;
        }
        false
    }

    /// Adds the label `key` with a value that is already quoted, unless a
    /// label with that key was added before: then nothing changes and the
    /// key is reported as a duplicate.
    pub fn add_quoted(&mut self, key: ValidatedLabel, quoted: &str) -> (added: Result<(), Error>)
        ensures
            added.is_ok() <==> !old(self).keys().contains(key@),
            added.is_ok() ==> final(self).formatted() == old(self).formatted() + separator(
                old(self).is_empty(),
            ) + key@ + "="@ + quoted@,
            added.is_ok() ==> final(self).keys() == old(self).keys().insert(key@),
            added.is_ok() ==> !final(self).is_empty(),
            added matches Err(error) ==> error@ == ErrorModel::DuplicateLabel(key@),
            added.is_err() ==> final(self).formatted() == old(self).formatted(),
            added.is_err() ==> final(self).keys() == old(self).keys(),
            added.is_err() ==> final(self).is_empty() == old(self).is_empty(),
    {
        if self.contains_key(key.inner()) {
            return Err(Error(ErrorInner::DuplicateLabel(key.0)));
        }
        let mut taken = FormattedLabels::new();
        std::mem::swap(self, &mut taken);
        let FormattedLabels { mut seen_keys, mut formatted } = taken;
        if !seen_keys.is_empty() {
            formatted.append(",");
        }
        formatted.append(key.inner());
        formatted.append("=");
        formatted.append(quoted);
        seen_keys.push(key.0);
        *self = FormattedLabels { seen_keys, formatted };
        proof {
            assert(self.formatted() =~= old(self).formatted() + separator(old(self).is_empty())
                + key@ + "="@ + quoted@);
            assert(self.keys() =~= old(self).keys().insert(key@)) by {
                assert forall|k: Seq<char>| self.keys().contains(k) <==> old(self).keys().insert(
                    key@,
                ).contains(k) by {
                    let last = old(self).seen_keys@.len() as int;
                    if self.keys().contains(k) {
                        let j = choose|j: int|
                            0 <= j < self.seen_keys@.len() && (#[trigger] self.seen_keys@[j])@ == k;
                        if j < last {
                            assert(old(self).seen_keys@[j]@ == k);
                        }
                    }
                    if old(self).keys().contains(k) {
                        let prior = old(self).seen_keys@;
                        let j = choose|j: int| 0 <= j < prior.len() && (#[trigger] prior[j])@ == k;
                        assert(self.seen_keys@[j]@ == k);
                    }
                    if k == key@ {
                        assert(self.seen_keys@[last]@ == k);
                    }
                }
            }
        }
        Ok(())
    }

    /// Adds the label `key` with `value`, quoted and escaped, unless a label
    /// with that key was added before: then nothing changes and the key is
    /// reported as a duplicate.
    pub fn add(&mut self, key: ValidatedLabel, value: &str) -> (added: Result<(), Error>)
        ensures
            added.is_ok() <==> !old(self).keys().contains(key@),
            added.is_ok() ==> final(self).formatted() == old(self).formatted() + separator(
                old(self).is_empty(),
            ) + key@ + "="@ + debug_quoted(value@),
            added.is_ok() ==> final(self).keys() == old(self).keys().insert(key@),
            added.is_ok() ==> !final(self).is_empty(),
            added matches Err(error) ==> error@ == ErrorModel::DuplicateLabel(key@),
            added.is_err() ==> final(self).formatted() == old(self).formatted(),
            added.is_err() ==> final(self).keys() == old(self).keys(),
            added.is_err() ==> final(self).is_empty() == old(self).is_empty(),
    {
        let quoted = quote(value);
        self.add_quoted(key, quoted.as_str())
    }

    /// The selector of the severity `level`: the labels added so far, the
    /// label of the severity and the closing brace.
    pub fn finish(&self, level: Level) -> (selector: String)
        ensures
            selector@ == selector_text(self@, level),
            self.is_empty() ==> self.formatted() == "{"@,
    {
        proof {
            use_type_invariant(self);
        }
        let mut result = self.formatted.clone();
        if !self.seen_keys.is_empty() {
            result.append(",");
        }
        result.append(
            match level {
                Level::Trace => "level=\"trace\"}",
                Level::Debug => "level=\"debug\"}",
                Level::Info => "level=\"info\"}",
                Level::Warn => "level=\"warn\"}",
                Level::Error => "level=\"error\"}",
            },
        );
        assert(result@ =~= self.formatted() + separator(self.is_empty()) + level_suffix(level));
        result
    }

    /// Joins these labels with a selector that is already finished: the
    /// other selector as it is where no label was added here, else these
    /// labels, a comma and the other selector without its opening brace.
    /// Nothing is checked of the other selector's labels.
    pub fn join_with_finished(self, other_formatted: String) -> (selector: String)
        requires
            !self.is_empty() ==> other_formatted@.len() >= 1 && (other_formatted@[0] as u32) < 128,
        ensures
            self.is_empty() ==> selector@ == other_formatted@,
            !self.is_empty() ==> selector@ == self.formatted() + ","@ + other_formatted@.subrange(
                1,
                other_formatted@.len() as int,
            ),
            self.is_empty() ==> self.formatted() == "{"@,
    {
        proof {
            use_type_invariant(&self);
        }
        if self.seen_keys.is_empty() {
            return other_formatted;
        }
        let mut result = self.formatted;
        result.append(",");
        let other = other_formatted.as_str();
        let len = other.unicode_len();
        result.append(other.substring_char(1, len));
        result
    }
}

} // verus!
