//! Configuring a layer and its delivery task step by step.

use vstd::prelude::*;
use vstd::string::StringExecFns;
use vstd::utf8::encode_utf8;
use crate::backoff::DEFAULT_BASE_DELAY_MS;
use crate::engine::fresh_engine;
use crate::error::Error;
use crate::error::ErrorInner;
use crate::error::ErrorModel;
use crate::http::CONTENT_TYPE_VALUE;
use crate::http::HEADER_LIMIT;
use crate::http::Headers;
use crate::http::content_type_name;
use crate::http::default_headers;
use crate::http::has_header;
use crate::http::header_entries;
use crate::http::try_insert_header;
use crate::http::clone_headers;
use crate::http::lemma_content_type_is_header_value;
use crate::http::new_headers;
use crate::http::with_header;
use crate::http::PUSH_PATH;
use crate::http::header_name_of;
use crate::http::header_value_is_valid;
use crate::http::is_header_value;
use crate::http::join_url;
use crate::http::parse_header_name;
use crate::http::url_joined;
use crate::labels::FormattedLabels;
use crate::labels::ValidatedLabel;
use crate::labels::LabelsModel;
use crate::labels::label_fault;
use crate::labels::labels_with;
use crate::labels::no_labels;
use crate::layer::Layer;
use crate::task::BackgroundTask;
use crate::text::Pairs;
use crate::text::has_key;
use crate::text::pairs_view;

verus! {

/// How many events the channel to the delivery task holds, unless
/// configured.
pub const DEFAULT_CHANNEL_CAP: usize = 512;

/// Whether one of `pairs` has `key` as its first part.
fn contains_key(pairs: &Vec<(String, String)>, key: &String) -> (found: bool)
    ensures
        found == has_key(pairs_view(pairs@), key@),
{
    let mut i: usize = 0;
    while i < pairs.len()
        invariant
            i <= pairs@.len(),
            forall|j: int| 0 <= j < i ==> (#[trigger] pairs_view(pairs@)[j]).0 != key@,
        decreases pairs@.len() - i,
    {
        if pairs[i].0 == *key {
            assert(pairs_view(pairs@)[i as int].0 == key@);
            return true;
        }
        i += 1;
    }
    false
}

/// Builder for constructing a layer and its delivery task.
pub struct Builder {
    labels: FormattedLabels,
    extra_fields: Vec<(String, String)>,
    http_headers: reqwest::header::HeaderMap,
    backoff_ms: u64,
    channel_cap: usize,
}

impl Clone for Builder {
    fn clone(&self) -> (copy: Builder)
        ensures
            copy.labels()@ == self.labels()@,
            copy.extra_fields() == self.extra_fields(),
            copy.http_headers() == self.http_headers(),
            copy.base_delay_ms() == self.base_delay_ms(),
            copy.channel_capacity() == self.channel_capacity(),
    {
        let mut extra_fields: Vec<(String, String)> = Vec::new();
        let mut i: usize = 0;
        assert(pairs_view(extra_fields@) =~= pairs_view(self.extra_fields@).take(0));
        while i < self.extra_fields.len()
            invariant
                i <= self.extra_fields@.len(),
                pairs_view(extra_fields@) == pairs_view(self.extra_fields@).take(i as int),
            decreases self.extra_fields@.len() - i,
        {
            let key = self.extra_fields[i].0.clone();
            let value = self.extra_fields[i].1.clone();
            let ghost prior = pairs_view(extra_fields@);
            extra_fields.push((key, value));
            proof {
                let whole = pairs_view(self.extra_fields@);
                assert(whole[i as int] == (key@, value@));
                assert(pairs_view(extra_fields@) =~= prior.push((key@, value@)));
                assert(whole.take(i + 1) =~= whole.take(i as int).push(whole[i as int]));
            }
            i += 1;
        }
        assert(pairs_view(self.extra_fields@).take(i as int) =~= pairs_view(self.extra_fields@));
        Builder {
            labels: self.labels.clone(),
            extra_fields,
            http_headers: clone_headers(&self.http_headers),
            backoff_ms: self.backoff_ms,
            channel_cap: self.channel_cap,
        }
    }
}

/// The builder to start from: no labels, no extra fields, the header that
/// says what the body is, and the default backoff and channel size.
pub fn builder() -> (builder: Builder)
    ensures
        builder.labels().formatted() == "{"@,
        builder.labels().keys() == Set::<Seq<char>>::empty(),
        builder.labels().is_empty(),
        builder.extra_fields() == Seq::<(Seq<char>, Seq<char>)>::empty(),
        builder.http_headers() == default_headers(),
        builder.base_delay_ms() == DEFAULT_BASE_DELAY_MS,
        builder.channel_capacity() == DEFAULT_CHANNEL_CAP,
{
    let mut http_headers = new_headers();
    let name = content_type_name();
    proof {
        lemma_content_type_is_header_value();
    }
    let _ = try_insert_header(&mut http_headers, name.as_str(), CONTENT_TYPE_VALUE);
    let builder = Builder {
        labels: FormattedLabels::new(),
        extra_fields: Vec::new(),
        http_headers,
        backoff_ms: DEFAULT_BASE_DELAY_MS,
        channel_cap: DEFAULT_CHANNEL_CAP,
    };
    assert(builder.extra_fields() =~= Seq::<(Seq<char>, Seq<char>)>::empty());
    assert(builder.http_headers() =~= default_headers());
    builder
}

impl Builder {
    /// The labels added so far.
    pub closed spec fn labels(&self) -> FormattedLabels {
        self.labels
    }

    /// The extra fields set so far, in the order in which they were set.
    pub closed spec fn extra_fields(&self) -> Pairs {
        pairs_view(self.extra_fields@)
    }

    /// The HTTP headers set so far: names in lower case with the bytes of
    /// their values, in the order in which they were set.
    pub closed spec fn http_headers(&self) -> Headers {
        header_entries(self.http_headers)
    }

    /// The delay before the first retry, in milliseconds.
    pub closed spec fn base_delay_ms(&self) -> u64 {
        self.backoff_ms
    }

    /// How many events the channel to the delivery task will hold.
    pub closed spec fn channel_capacity(&self) -> usize {
        self.channel_cap
    }

    /// Whether `other` differs from this builder in its labels at most.
    pub open spec fn same_but_labels(&self, other: &Builder) -> bool {
        &&& other.extra_fields() == self.extra_fields()
        &&& other.http_headers() == self.http_headers()
        &&& other.base_delay_ms() == self.base_delay_ms()
        &&& other.channel_capacity() == self.channel_capacity()
    }

    /// Adds a label to the logs sent to Loki.
    ///
    /// The key must be made of the letters `A` to `Z` and `a` to `z` and of
    /// underscores; the first other character is reported. The key `level`
    /// is kept for the severity, and no key can be added twice.
    pub fn label(self, key: &str, value: &str) -> (built: Result<Builder, Error>)
        ensures
            built matches Err(error) ==> label_fault(self.labels().keys(), key@) == Some(error@),
            built matches Ok(next) ==> {
                &&& label_fault(self.labels().keys(), key@).is_none()
                &&& next.labels()@ == labels_with(self.labels()@, (key@, value@))
                &&& self.same_but_labels(&next)
            },
    {
        let validated = match ValidatedLabel::new(String::from_str(key)) {
            Ok(validated) => validated,
            Err(error) => {
                return Err(error);
            },
        };
        let mut next = self;
        match next.labels.add(validated, value) {
            Ok(()) => Ok(next),
            Err(error) => Err(error),
        }
    }

    /// Sets an extra field that is sent with every log record. No key can
    /// be set twice.
    pub fn extra_field(self, key: &str, value: &str) -> (built: Result<Builder, Error>)
        ensures
            built.is_ok() <==> !has_key(self.extra_fields(), key@),
            built matches Ok(next) ==> {
                &&& next.extra_fields() == self.extra_fields().push((key@, value@))
                &&& next.labels() == self.labels()
                &&& next.http_headers() == self.http_headers()
                &&& next.base_delay_ms() == self.base_delay_ms()
                &&& next.channel_capacity() == self.channel_capacity()
            },
            built matches Err(error) ==> error@ == ErrorModel::DuplicateExtraField(key@),
    {
        let key = String::from_str(key);
        if contains_key(&self.extra_fields, &key) {
            return Err(Error(ErrorInner::DuplicateExtraField(key)));
        }
        let mut next = self;
        next.extra_fields.push((key, String::from_str(value)));
        assert(next.extra_fields() =~= self.extra_fields().push((key@, value@)));
        Ok(next)
    }

    /// Sets an extra HTTP header that is sent with every request.
    ///
    /// The name and the value must be such that a header can have them, and
    /// no header can be set twice, whatever the case of its name's letters.
    /// Where `HEADER_LIMIT` headers or more are set, the map that holds them
    /// may refuse another; that is reported too.
    pub fn http_header(self, key: &str, value: &str) -> (built: Result<Builder, Error>)
        ensures
            header_name_of(key@).is_none() ==> (built matches Err(error) && error@
                == ErrorModel::InvalidHttpHeaderName(key@)),
            header_name_of(key@).is_some() && !is_header_value(value@) ==> (built matches Err(
                error,
            ) && error@ == ErrorModel::InvalidHttpHeaderValue(key@)),
            (header_name_of(key@) matches Some(name) && is_header_value(value@) && has_header(
                self.http_headers(),
                name,
            )) ==> (built matches Err(error) && (error@ == ErrorModel::DuplicateHttpHeader(key@)
                || (error@ == ErrorModel::TooManyHttpHeaders && self.http_headers().len()
                >= HEADER_LIMIT))),
            (header_name_of(key@) matches Some(name) && is_header_value(value@) && !has_header(
                self.http_headers(),
                name,
            )) ==> (built.is_ok() || (built matches Err(error) && error@
                == ErrorModel::TooManyHttpHeaders && self.http_headers().len() >= HEADER_LIMIT)),
            built matches Ok(next) ==> {
                &&& header_name_of(key@) matches Some(name) && next.http_headers()
                    == self.http_headers().push((name, encode_utf8(value@)))
                &&& next.labels() == self.labels()
                &&& next.extra_fields() == self.extra_fields()
                &&& next.base_delay_ms() == self.base_delay_ms()
                &&& next.channel_capacity() == self.channel_capacity()
            },
    {
        if parse_header_name(key).is_none() {
            return Err(Error(ErrorInner::InvalidHttpHeaderName(String::from_str(key))));
        }
        if !header_value_is_valid(value) {
            return Err(Error(ErrorInner::InvalidHttpHeaderValue(String::from_str(key))));
        }
        let mut next = self;
        match try_insert_header(&mut next.http_headers, key, value) {
            Some(replaced) => {
                if replaced {
                    return Err(Error(ErrorInner::DuplicateHttpHeader(String::from_str(key))));
                }
            },
            None => {
                return Err(Error(ErrorInner::TooManyHttpHeaders));
            },
        }
        proof {
            lemma_new_header_comes_last(
                self.http_headers(),
                header_name_of(key@).unwrap(),
                encode_utf8(value@),
            );
        }
        Ok(next)
    }

    /// Sets the delay before the first retry after a failed send, in
    /// milliseconds.
    pub fn backoff(self, backoff_ms: u64) -> (next: Builder)
        ensures
            next.base_delay_ms() == backoff_ms,
            next.labels() == self.labels(),
            next.extra_fields() == self.extra_fields(),
            next.http_headers() == self.http_headers(),
            next.channel_capacity() == self.channel_capacity(),
    {
        let mut next = self;
        next.backoff_ms = backoff_ms;
        next
    }

    /// Sets the size of the channel to the delivery task.
    pub fn channel_cap(self, channel_cap: usize) -> (next: Builder)
        ensures
            next.channel_capacity() == channel_cap,
            next.labels() == self.labels(),
            next.extra_fields() == self.extra_fields(),
            next.http_headers() == self.http_headers(),
            next.base_delay_ms() == self.base_delay_ms(),
    {
        let mut next = self;
        next.channel_cap = channel_cap;
        next
    }

    /// Builds the layer and the delivery task for the Loki server at
    /// `loki_url`, such as `https://127.0.0.1:3100`. The path of the push
    /// endpoint is resolved against the URL as it is given.
    pub fn build_url(self, loki_url: &str) -> (built: Result<(Layer, BackgroundTask), Error>)
        ensures
            built.is_ok() <==> url_joined(loki_url@, PUSH_PATH@).is_some(),
            built matches Ok(parts) ==> {
                &&& pairs_view(parts.0.extra_fields@) == self.extra_fields()
                &&& parts.0.channel_cap == self.channel_capacity()
                &&& url_joined(loki_url@, PUSH_PATH@) == Some(parts.1.loki_url@)
                &&& header_entries(parts.1.http_headers) == self.http_headers()
                &&& parts.1.engine@.wf()
                &&& parts.1.engine@ == fresh_engine(self.labels()@, self.base_delay_ms())
            },
            built matches Err(error) ==> error@ == ErrorModel::InvalidLokiUrl,
    {
        let task = match BackgroundTask::new(
            loki_url,
            self.http_headers,
            &self.labels,
            self.backoff_ms,
        ) {
            Ok(task) => task,
            Err(error) => {
                return Err(error);
            },
        };
        Ok((Layer { extra_fields: self.extra_fields, channel_cap: self.channel_cap }, task))
    }
}

/// A header whose name is not among those set comes after all of them.
proof fn lemma_new_header_comes_last(entries: Headers, name: Seq<char>, value: Seq<u8>)
    requires
        !has_header(entries, name),
    ensures
        with_header(entries, name, value) == entries.push((name, value)),
    decreases entries.len(),
{
    if entries.len() == 0 {
        assert(with_header(entries, name, value) =~= entries.push((name, value)));
    } else {
        let rest = entries.drop_first();
        assert(entries[0].0 != name);
        assert forall|i: int| 0 <= i < rest.len() implies (#[trigger] rest[i]).0 != name by {
            assert(entries[i + 1].0 != name);
        }
        lemma_new_header_comes_last(rest, name, value);
        assert(seq![entries[0]] + rest.push((name, value)) =~= entries.push((name, value)));
    }
}

/// The labels after all of `pairs` were added in order, or what the first
/// of them that cannot be added is refused for.
pub open spec fn labels_checked(start: LabelsModel, pairs: Pairs) -> Result<LabelsModel, ErrorModel>
    decreases pairs.len(),
{
    if pairs.len() == 0 {
        Ok(start)
    } else {
        match labels_checked(start, pairs.drop_last()) {
            Ok(labels) => match label_fault(labels.keys, pairs.last().0) {
                Some(fault) => Err(fault),
                None => Ok(labels_with(labels, pairs.last())),
            },
            Err(fault) => Err(fault),
        }
    }
}

/// The first of the extra fields `pairs` whose key was set before it, as
/// the fault that it is; nothing where every key stands once.
pub open spec fn fields_fault(pairs: Pairs) -> Option<ErrorModel>
    decreases pairs.len(),
{
    if pairs.len() == 0 {
        None
    } else if fields_fault(pairs.drop_last()).is_some() {
        fields_fault(pairs.drop_last())
    } else if has_key(pairs.drop_last(), pairs.last().0) {
        Some(ErrorModel::DuplicateExtraField(pairs.last().0))
    } else {
        None
    }
}

/// The URL that is pushed to where the server's URL is `loki_url` and its
/// path is dropped.
pub open spec fn push_url_at_root(loki_url: Seq<char>) -> Option<Seq<char>> {
    match url_joined(loki_url, "/"@) {
        Some(root) => url_joined(root, PUSH_PATH@),
        None => None,
    }
}

/// What building with the given labels, extra fields and URL is refused
/// for, if it is: the first label that cannot be added, else the first
/// extra field set twice, else the URL.
pub open spec fn layer_fault(loki_url: Seq<char>, labels: Pairs, extra_fields: Pairs) -> Option<
    ErrorModel,
> {
    match labels_checked(no_labels(), labels) {
        Err(fault) => Some(fault),
        Ok(_) => if fields_fault(extra_fields).is_some() {
            fields_fault(extra_fields)
        } else if push_url_at_root(loki_url).is_none() {
            Some(ErrorModel::InvalidLokiUrl)
        } else {
            None
        },
    }
}

/// Builds the layer and the delivery task for the Loki server at
/// `loki_url`, with the given labels and extra fields, each added in the
/// order given. The path of `loki_url` is dropped before the path of the
/// push endpoint is appended.
pub fn layer(
    loki_url: &str,
    labels: Vec<(String, String)>,
    extra_fields: Vec<(String, String)>,
) -> (built: Result<(Layer, BackgroundTask), Error>)
    ensures
        built matches Err(error) ==> layer_fault(
            loki_url@,
            pairs_view(labels@),
            pairs_view(extra_fields@),
        ) == Some(error@),
        built matches Ok(parts) ==> {
            &&& layer_fault(loki_url@, pairs_view(labels@), pairs_view(extra_fields@)).is_none()
            &&& pairs_view(parts.0.extra_fields@) == pairs_view(extra_fields@)
            &&& parts.0.channel_cap == DEFAULT_CHANNEL_CAP
            &&& push_url_at_root(loki_url@) == Some(parts.1.loki_url@)
            &&& header_entries(parts.1.http_headers) == default_headers()
            &&& parts.1.engine@.wf()
            &&& labels_checked(no_labels(), pairs_view(labels@)) matches Ok(made)
                && parts.1.engine@ == fresh_engine(made, DEFAULT_BASE_DELAY_MS)
        },
{
    let mut builder = builder();
    let ghost wanted = pairs_view(labels@);
    let ghost fields = pairs_view(extra_fields@);
    let mut i: usize = 0;
    assert(wanted.take(0) =~= Seq::<(Seq<char>, Seq<char>)>::empty());
    while i < labels.len()
        invariant
            i <= labels@.len(),
            wanted == pairs_view(labels@),
            labels_checked(no_labels(), wanted.take(i as int)) == Ok::<LabelsModel, ErrorModel>(
                builder.labels()@,
            ),
            builder.extra_fields() == Seq::<(Seq<char>, Seq<char>)>::empty(),
            builder.http_headers() == default_headers(),
            builder.base_delay_ms() == DEFAULT_BASE_DELAY_MS,
            builder.channel_capacity() == DEFAULT_CHANNEL_CAP,
        decreases labels@.len() - i,
    {
        proof {
            assert(wanted.take(i + 1).drop_last() =~= wanted.take(i as int));
            assert(wanted.take(i + 1).last() == (labels@[i as int].0@, labels@[i as int].1@));
            lemma_labels_fault_stays(no_labels(), wanted, i + 1);
        }
        builder = match builder.label(labels[i].0.as_str(), labels[i].1.as_str()) {
            Ok(next) => next,
            Err(error) => {
                return Err(error);
            },
        };
        i += 1;
    }
    assert(wanted.take(i as int) =~= wanted);
    let mut j: usize = 0;
    assert(fields.take(0) =~= Seq::<(Seq<char>, Seq<char>)>::empty());
    while j < extra_fields.len()
        invariant
            j <= extra_fields@.len(),
            wanted == pairs_view(labels@),
            fields == pairs_view(extra_fields@),
            labels_checked(no_labels(), wanted) == Ok::<LabelsModel, ErrorModel>(
                builder.labels()@,
            ),
            builder.extra_fields() == fields.take(j as int),
            fields_fault(fields.take(j as int)).is_none(),
            builder.http_headers() == default_headers(),
            builder.base_delay_ms() == DEFAULT_BASE_DELAY_MS,
            builder.channel_capacity() == DEFAULT_CHANNEL_CAP,
        decreases extra_fields@.len() - j,
    {
        proof {
            assert(fields.take(j + 1).drop_last() =~= fields.take(j as int));
            assert(fields.take(j + 1).last() == (
                extra_fields@[j as int].0@,
                extra_fields@[j as int].1@,
            ));
            lemma_fields_fault_stays(fields, j + 1);
        }
        builder = match builder.extra_field(
            extra_fields[j].0.as_str(),
            extra_fields[j].1.as_str(),
        ) {
            Ok(next) => next,
            Err(error) => {
                return Err(error);
            },
        };
        assert(builder.extra_fields() =~= fields.take(j + 1));
        j += 1;
    }
    assert(fields.take(j as int) =~= fields);
    let root = match join_url(loki_url, "/") {
        Some(root) => root,
        None => {
            return Err(Error(ErrorInner::InvalidLokiUrl));
        },
    };
    builder.build_url(root.as_str())
}

/// A fault among the first `count` labels is the fault of them all.
proof fn lemma_labels_fault_stays(start: LabelsModel, pairs: Pairs, count: int)
    requires
        0 <= count <= pairs.len(),
    ensures
        labels_checked(start, pairs.take(count)) matches Err(fault) ==> labels_checked(
            start,
            pairs,
        ) == Err::<LabelsModel, ErrorModel>(fault),
    decreases pairs.len() - count,
{
    if count < pairs.len() {
        lemma_labels_fault_stays(start, pairs, count + 1);
        assert(pairs.take(count + 1).drop_last() =~= pairs.take(count));
    } else {
        assert(pairs.take(count) =~= pairs);
    }
}

/// A fault among the first `count` extra fields is the fault of them all.
proof fn lemma_fields_fault_stays(pairs: Pairs, count: int)
    requires
        0 <= count <= pairs.len(),
    ensures
        fields_fault(pairs.take(count)).is_some() ==> fields_fault(pairs) == fields_fault(
            pairs.take(count),
        ),
    decreases pairs.len() - count,
{
    if count < pairs.len() {
        lemma_fields_fault_stays(pairs, count + 1);
        assert(pairs.take(count + 1).drop_last() =~= pairs.take(count));
    } else {
        assert(pairs.take(count) =~= pairs);
    }
}

} // verus!
