//! The vocabulary of the metrics, and what the health probe answers.

use vstd::prelude::*;

use crate::upstream::{has_capacity, Pool};

verus! {

/// The metrics that are recorded.
#[derive(Debug, Clone, Copy, PartialEq, Eq, Structural)]
pub enum Metric {
    RequestsTotal,
    CreditsConsumedTotal,
    CreditsRemaining,
    RateLimitHitsTotal,
    UpstreamErrorsTotal,
    Inflight,
    RpcMethodTotal,
    AllExhaustedTotal,
    RequestDurationSeconds,
    KeepaliveTotal,
}

impl Metric {
    /// The name of this metric behind the common prefix.
    pub open spec fn suffix(self) -> Seq<char> {
        match self {
            Metric::RequestsTotal => "requests_total"@,
            Metric::CreditsConsumedTotal => "credits_consumed_total"@,
            Metric::CreditsRemaining => "credits_remaining"@,
            Metric::RateLimitHitsTotal => "rate_limit_hits_total"@,
            Metric::UpstreamErrorsTotal => "upstream_errors_total"@,
            Metric::Inflight => "inflight"@,
            Metric::RpcMethodTotal => "rpc_method_total"@,
            Metric::AllExhaustedTotal => "all_exhausted_total"@,
            Metric::RequestDurationSeconds => "request_duration_seconds"@,
            Metric::KeepaliveTotal => "keepalive_total"@,
        }
    }

    /// The name under which this metric is exposed.
    pub fn name(self) -> (name: &'static str)
        ensures
            name@ == "ninehelius_"@ + self.suffix(),
    {
        proof {
            reveal_strlit("ninehelius_");
        }
        match self {
            Metric::RequestsTotal => {
                proof {
                    reveal_strlit("requests_total");
                    reveal_strlit("ninehelius_requests_total");
                }
                assert("ninehelius_requests_total"@ =~= "ninehelius_"@ + self.suffix());
                "ninehelius_requests_total"
            },
            Metric::CreditsConsumedTotal => {
                proof {
                    reveal_strlit("credits_consumed_total");
                    reveal_strlit("ninehelius_credits_consumed_total");
                }
                assert("ninehelius_credits_consumed_total"@ =~= "ninehelius_"@ + self.suffix());
                "ninehelius_credits_consumed_total"
            },
            Metric::CreditsRemaining => {
                proof {
                    reveal_strlit("credits_remaining");
                    reveal_strlit("ninehelius_credits_remaining");
                }
                assert("ninehelius_credits_remaining"@ =~= "ninehelius_"@ + self.suffix());
                "ninehelius_credits_remaining"
            },
            Metric::RateLimitHitsTotal => {
                proof {
                    reveal_strlit("rate_limit_hits_total");
                    reveal_strlit("ninehelius_rate_limit_hits_total");
                }
                assert("ninehelius_rate_limit_hits_total"@ =~= "ninehelius_"@ + self.suffix());
                "ninehelius_rate_limit_hits_total"
            },
            Metric::UpstreamErrorsTotal => {
                proof {
                    reveal_strlit("upstream_errors_total");
                    reveal_strlit("ninehelius_upstream_errors_total");
                }
                assert("ninehelius_upstream_errors_total"@ =~= "ninehelius_"@ + self.suffix());
                "ninehelius_upstream_errors_total"
            },
            Metric::Inflight => {
                proof {
                    reveal_strlit("inflight");
                    reveal_strlit("ninehelius_inflight");
                }
                assert("ninehelius_inflight"@ =~= "ninehelius_"@ + self.suffix());
                "ninehelius_inflight"
            },
            Metric::RpcMethodTotal => {
                proof {
                    reveal_strlit("rpc_method_total");
                    reveal_strlit("ninehelius_rpc_method_total");
                }
                assert("ninehelius_rpc_method_total"@ =~= "ninehelius_"@ + self.suffix());
                "ninehelius_rpc_method_total"
            },
            Metric::AllExhaustedTotal => {
                proof {
                    reveal_strlit("all_exhausted_total");
                    reveal_strlit("ninehelius_all_exhausted_total");
                }
                assert("ninehelius_all_exhausted_total"@ =~= "ninehelius_"@ + self.suffix());
                "ninehelius_all_exhausted_total"
            },
            Metric::RequestDurationSeconds => {
                proof {
                    reveal_strlit("request_duration_seconds");
                    reveal_strlit("ninehelius_request_duration_seconds");
                }
                assert("ninehelius_request_duration_seconds"@ =~= "ninehelius_"@ + self.suffix());
                "ninehelius_request_duration_seconds"
            },
            Metric::KeepaliveTotal => {
                proof {
                    reveal_strlit("keepalive_total");
                    reveal_strlit("ninehelius_keepalive_total");
                }
                assert("ninehelius_keepalive_total"@ =~= "ninehelius_"@ + self.suffix());
                "ninehelius_keepalive_total"
            },
        }
    }
}

/// Some labels, by their characters.
pub open spec fn label_texts(labels: Seq<(&'static str, String)>) -> Seq<(Seq<char>, Seq<char>)> {
    labels.map_values(|l: (&'static str, String)| (l.0@, l.1@))
}

/// A value for a metric under some labels.
#[derive(Debug)]
pub struct Sample {
    pub metric: Metric,
    pub labels: Vec<(&'static str, String)>,
    pub value: u64,
}

/// A [`Sample`], with its labels by their characters.
#[verifier::ext_equal]
pub struct Reading {
    pub metric: Metric,
    pub labels: Seq<(Seq<char>, Seq<char>)>,
    pub value: u64,
}

impl View for Sample {
    type V = Reading;

    open spec fn view(&self) -> Reading {
        Reading {
            metric: self.metric,
            labels: label_texts(self.labels@),
            value: self.value,
        }
    }
}

/// Some samples, by their views.
pub open spec fn readings(samples: Seq<Sample>) -> Seq<Reading> {
    samples.map_values(|s: Sample| s@)
}

impl Sample {
    /// A value without labels.
    pub fn plain(metric: Metric, value: u64) -> (sample: Self)
        ensures
            sample@ == (Reading { metric, labels: Seq::empty(), value }),
    {
        let sample = Sample { metric, labels: Vec::new(), value };
        assert(sample@.labels =~= Seq::<(Seq<char>, Seq<char>)>::empty());
        sample
    }

    /// This value under one more label.
    pub fn with(self, label: &'static str, text: &str) -> (sample: Self)
        ensures
            sample@ == (Reading { labels: self@.labels.push((label@, text@)), ..self@ }),
    {
        let mut labels = self.labels;
        let ghost before = labels@;
        labels.push((label, text.to_string()));
        let sample = Sample { metric: self.metric, labels, value: self.value };
        assert(sample@.labels =~= label_texts(before).push((label@, text@)));
        sample
    }
}

/// The status of `GET /health`: 200 if any key has quota left, 503 if all are exhausted.
pub fn health_status(pool: &Pool) -> (status: u16)
    ensures
        status == (if has_capacity(pool.upstreams@) {
            200u16
        } else {
            503u16
        }),
{
    if pool.has_available_capacity() {
        200
    } else {
        503
    }
}

} // verus!
