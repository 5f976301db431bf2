//! What the delivery task is made of.

use vstd::prelude::*;
use crate::engine::DeliveryEngine;
use crate::engine::fresh_engine;
use crate::error::Error;
use crate::error::ErrorInner;
use crate::error::ErrorModel;
use crate::http::PUSH_PATH;
use crate::http::join_url;
use crate::http::url_joined;
use crate::labels::FormattedLabels;

verus! {

/// The parts of the task that ships logs to Loki: where to push, what to
/// send along, and the engine that decides.
pub struct BackgroundTask {
    /// The URL that requests are posted to.
    pub loki_url: String,
    /// The headers sent with every request.
    pub http_headers: reqwest::header::HeaderMap,
    /// The queues and the rules of delivery.
    pub engine: DeliveryEngine,
}

impl BackgroundTask {
    /// The parts of a task that pushes to the server at `loki_url`, under
    /// `labels`. The push endpoint's path is resolved against `loki_url`;
    /// where that gives no URL, the URL is refused.
    pub fn new(
        loki_url: &str,
        http_headers: reqwest::header::HeaderMap,
        labels: &FormattedLabels,
        base_delay_ms: u64,
    ) -> (task: Result<BackgroundTask, Error>)
        ensures
            task.is_ok() <==> url_joined(loki_url@, PUSH_PATH@).is_some(),
            task matches Ok(made) ==> {
                &&& url_joined(loki_url@, PUSH_PATH@) == Some(made.loki_url@)
                &&& made.http_headers == http_headers
                &&& made.engine@.wf()
                &&& made.engine@ == fresh_engine(labels@, base_delay_ms)
            },
            task matches Err(error) ==> error@ == ErrorModel::InvalidLokiUrl,
    {
        match join_url(loki_url, PUSH_PATH) {
            Some(push_url) => Ok(
                BackgroundTask {
                    loki_url: push_url,
                    http_headers,
                    engine: DeliveryEngine::new(labels, base_delay_ms),
                },
            ),
            None => Err(Error(ErrorInner::InvalidLokiUrl)),
        }
    }
}

} // verus!
