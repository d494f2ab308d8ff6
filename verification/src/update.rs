//! One round of the DuckDNS update protocol: what is checked before any
//! request, how a change of public address is detected (the record is only
//! updated when the address changed), which query the update endpoint
//! receives, and how failures are retried with exponential backoff. The
//! requests themselves and the waits between them are made by the caller,
//! which hands each reply back to the round.

use vstd::prelude::*;
use crate::config::{validation_errors, AppConfig};
use crate::domains::{domain_list, join, lemma_domain_list_shape, lemma_join_first, lemma_trim_nonempty, lemma_trimmed_first, views};
use crate::numbers::{decimal, decimal_text};
use crate::text::{contains_text, copy_text_opt, opt_view, same_text_opt, text_contains, trim, trim_text};

verus! {

/// Address of the DuckDNS update endpoint.
pub const UPDATE_URL: &'static str = "https://www.duckdns.org/update";
/// Service that answers with the caller's public IPv4 address.
pub const IPV4_LOOKUP_URL: &'static str = "https://api.ipify.org";
/// Service that answers with the caller's public IPv6 address.
pub const IPV6_LOOKUP_URL: &'static str = "https://api6.ipify.org";

/// Retries after a failed request, so at most this plus one requests per round.
pub const MAX_RETRIES: u32 = 3;
/// Wait before the first retry; each further retry waits three times longer.
pub const BASE_RETRY_DELAY_SECS: u64 = 5;

/// The outcome of a completed update round.
#[derive(Debug, Clone)]
pub struct UpdateResult {
    /// The record holds the addresses: the endpoint answered with a body
    /// containing `OK` (in any case), or they had not changed.
    pub success: bool,
    pub ipv4: Option<String>,
    pub ipv6: Option<String>,
    /// The public address differs from the last one recorded.
    pub ip_changed: bool,
    pub _response: String,
}

/// The checked parameters of a round: domains and token, trimmed and non-empty.
#[derive(Debug, Clone)]
pub struct UpdateRequest {
    pub domains: String,
    pub token: String,
    /// Whether the IPv6 address takes part in the round.
    pub ipv6_enabled: bool,
}

/// Message for a round refused because no domain is set.
pub open spec fn domain_missing_message() -> Seq<char> {
    "O domínio não pode estar vazio."@
}

/// Message for a round refused because no token is set.
pub open spec fn token_missing_message() -> Seq<char> {
    "O token não pode estar vazio."@
}

impl UpdateRequest {
    /// Checks the settings before a round: the comma-joined domains and the
    /// token, trimmed, must both be non-empty (the domains are checked first).
    pub fn from_config(config: &AppConfig) -> (r: Result<UpdateRequest, String>)
        ensures
            trim(config.csv_view()).len() == 0 ==> (r matches Err(e) && e@
                == domain_missing_message()),
            trim(config.csv_view()).len() > 0 && trim(config.token@).len() == 0 ==> (r matches Err(
                e,
            ) && e@ == token_missing_message()),
            trim(config.csv_view()).len() > 0 && trim(config.token@).len() > 0 ==> (r matches Ok(
                q,
            ) && q.domains@ == trim(config.csv_view()) && q.token@ == trim(config.token@)
                && q.ipv6_enabled == config.ipv6_enabled),
    {
        let csv = config.domains_csv();
        let domains = trim_text(csv.as_str());
        let token = trim_text(config.token.as_str());
        if domains.unicode_len() == 0 {
            return Err(String::from_str("O domínio não pode estar vazio."));
        }
        if token.unicode_len() == 0 {
            return Err(String::from_str("O token não pode estar vazio."));
        }
        Ok(UpdateRequest { domains, token, ipv6_enabled: config.ipv6_enabled })
    }
}

/// Whether the public address changed since the last recorded round; the
/// IPv6 address counts only while IPv6 is enabled.
pub open spec fn address_changed(
    ipv4: Option<String>,
    ipv6: Option<String>,
    config: AppConfig,
) -> bool {
    opt_view(ipv4) != opt_view(config.last_ipv4) || (config.ipv6_enabled && opt_view(ipv6)
        != opt_view(config.last_ipv6))
}

/// `3` to the power `k`.
pub open spec fn pow3(k: nat) -> nat
    decreases k,
{
    if k == 0 {
        1
    } else {
        3 * pow3((k - 1) as nat)
    }
}

/// Seconds waited before retry number `retry` (counting from one).
pub open spec fn retry_delay(retry: nat) -> nat {
    (BASE_RETRY_DELAY_SECS * pow3((retry - 1) as nat)) as nat
}

/// The message of a round whose every request failed, the last with `last_err`.
pub open spec fn exhausted_message(last_err: Seq<char>) -> Seq<char> {
    "Falha após "@ + decimal((MAX_RETRIES + 1) as nat) + " tentativas: "@ + last_err
}

/// The query parameters of an update request, in order: domains, token,
/// `verbose=true`, then `ip` and `ipv6` for the addresses that are known.
pub open spec fn update_query(
    domains: Seq<char>,
    token: Seq<char>,
    ipv4: Option<Seq<char>>,
    ipv6: Option<Seq<char>>,
) -> Seq<(Seq<char>, Seq<char>)> {
    let base = seq![("domains"@, domains), ("token"@, token), ("verbose"@, "true"@)];
    let with_v4 = match ipv4 {
        Some(a) => base.push(("ip"@, a)),
        None => base,
    };
    match ipv6 {
        Some(b) => with_v4.push(("ipv6"@, b)),
        None => with_v4,
    }
}

/// The characters of a list of name/value pairs.
pub open spec fn pair_views(v: Seq<(String, String)>) -> Seq<(Seq<char>, Seq<char>)> {
    v.map_values(|p: (String, String)| (p.0@, p.1@))
}

/// What the caller does next in a round.
pub enum UpdateStep {
    /// The round is over with this outcome.
    Finished(Result<UpdateResult, String>),
    /// Wait this many seconds, then send the request again.
    RetryAfter(u64),
}

/// The state of one update round.
pub struct UpdateRound {
    pub request: UpdateRequest,
    pub ipv4: Option<String>,
    pub ipv6: Option<String>,
    pub ip_changed: bool,
    /// Retries scheduled so far.
    pub retries: u32,
}

/// A copy of a text.
fn copy_text(s: &String) -> (r: String)
    ensures
        r == *s,
{
    s.clone()
}

/// The upper-case form of a text, as `str::to_uppercase` maps it (full
/// Unicode case mapping, which may change the length).
pub uninterp spec fn uppercase(s: Seq<char>) -> Seq<char>;

/// std `str::to_uppercase`; its result is named `uppercase`.
#[verifier::external_body]
fn to_uppercase(s: &str) -> (r: String)
    ensures
        r@ == uppercase(s@),
{
    s.to_uppercase()
}

/// Whether an upper-cased reply of the update endpoint reports success: it
/// contains `OK`.
pub fn upper_reply_reports_success(upper: &str) -> (r: bool)
    ensures
        r == contains_text(upper@, "OK"@),
{
    text_contains(upper, "OK")
}

/// Whether a reply of the update endpoint reports success: its upper-case
/// form contains `OK`.
pub fn reply_reports_success(reply: &str) -> (r: bool)
    ensures
        r == contains_text(uppercase(reply@), "OK"@),
{
    let upper = to_uppercase(reply);
    upper_reply_reports_success(upper.as_str())
}

/// Seconds to wait before retry number `retry`.
pub fn retry_delay_secs(retry: u32) -> (r: u64)
    requires
        1 <= retry <= MAX_RETRIES,
    ensures
        r == retry_delay(retry as nat),
{
    let mut factor: u64 = 1;
    let mut k: u32 = 1;
    while k < retry
        invariant
            1 <= k <= retry <= MAX_RETRIES,
            factor == pow3((k - 1) as nat),
            k == 1 ==> factor == 1,
            k == 2 ==> factor == 3,
            k == 3 ==> factor == 9,
        decreases retry - k,
    {
        proof {
            reveal_with_fuel(pow3, 3);
        }
        assert(pow3(k as nat) == 3 * pow3((k - 1) as nat));
        factor = factor * 3;
        k += 1;
    }
    BASE_RETRY_DELAY_SECS * factor
}

impl UpdateRound {
    /// Retries never exceed their limit.
    pub open spec fn wf(self) -> bool {
        self.retries <= MAX_RETRIES
    }

    /// Starts a round with the addresses fetched for it; the IPv6 address is
    /// dropped when IPv6 is disabled.
    pub fn new(
        request: UpdateRequest,
        config: &AppConfig,
        ipv4: Option<String>,
        fetched_ipv6: Option<String>,
    ) -> (r: UpdateRound)
        ensures
            r.wf(),
            r.retries == 0,
            r.request == request,
            r.ipv4 == ipv4,
            r.ipv6 == (if config.ipv6_enabled {
                fetched_ipv6
            } else {
                None
            }),
            r.ip_changed == address_changed(ipv4, r.ipv6, *config),
            opt_view(ipv4) != opt_view(config.last_ipv4) ==> r.ip_changed,
            config.ipv6_enabled && opt_view(fetched_ipv6) != opt_view(config.last_ipv6)
                ==> r.ip_changed,
            r.ip_changed ==> opt_view(ipv4) != opt_view(config.last_ipv4) || (config.ipv6_enabled
                && opt_view(fetched_ipv6) != opt_view(config.last_ipv6)),
    {
        proof {
            lemma_change_detection(ipv4, fetched_ipv6, *config);
        }
        let ipv6 = if config.ipv6_enabled {
            fetched_ipv6
        } else {
            None
        };
        let v4_changed = !same_text_opt(&ipv4, &config.last_ipv4);
        let v6_changed = if config.ipv6_enabled {
            !same_text_opt(&ipv6, &config.last_ipv6)
        } else {
            false
        };
        UpdateRound { request, ipv4, ipv6, ip_changed: v4_changed || v6_changed, retries: 0 }
    }

    /// The outcome of a round whose addresses are the ones last recorded: the
    /// record already holds them, so the round ends without a request, as a
    /// success with an empty reply. `None` when the address changed and the
    /// update request is to be sent.
    pub fn unchanged_outcome(&self) -> (r: Option<UpdateResult>)
        ensures
            r is None <==> self.ip_changed,
            r matches Some(res) ==> {
                &&& res.success
                &&& res.ipv4 == self.ipv4
                &&& res.ipv6 == self.ipv6
                &&& !res.ip_changed
                &&& res._response@ == Seq::<char>::empty()
            },
    {
        if self.ip_changed {
            None
        } else {
            Some(
                UpdateResult {
                    success: true,
                    ipv4: copy_text_opt(&self.ipv4),
                    ipv6: copy_text_opt(&self.ipv6),
                    ip_changed: false,
                    _response: String::new(),
                },
            )
        }
    }

    /// The query parameters of this round's update request.
    pub fn query(&self) -> (r: Vec<(String, String)>)
        ensures
            pair_views(r@) == update_query(
                self.request.domains@,
                self.request.token@,
                opt_view(self.ipv4),
                opt_view(self.ipv6),
            ),
            self.ipv4 matches Some(a) ==> pair_views(r@).contains(("ip"@, a@)),
            self.ipv6 matches Some(b) ==> pair_views(r@).contains(("ipv6"@, b@)),
    {
        proof {
            lemma_query_carries_addresses(
                self.request.domains@,
                self.request.token@,
                opt_view(self.ipv4),
                opt_view(self.ipv6),
            );
        }
        let mut q: Vec<(String, String)> = Vec::new();
        q.push((String::from_str("domains"), copy_text(&self.request.domains)));
        q.push((String::from_str("token"), copy_text(&self.request.token)));
        q.push((String::from_str("verbose"), String::from_str("true")));
        match &self.ipv4 {
            Some(a) => q.push((String::from_str("ip"), copy_text(a))),
            None => {},
        }
        match &self.ipv6 {
            Some(b) => q.push((String::from_str("ipv6"), copy_text(b))),
            None => {},
        }
        assert(pair_views(q@) =~= update_query(
            self.request.domains@,
            self.request.token@,
            opt_view(self.ipv4),
            opt_view(self.ipv6),
        ));
        q
    }

    /// Takes the outcome of the latest request: a reply ends the round; a
    /// failure schedules the next retry while retries remain, and otherwise
    /// ends the round with the last error.
    pub fn on_outcome(&mut self, outcome: Result<String, String>) -> (step: UpdateStep)
        requires
            old(self).wf(),
        ensures
            final(self).wf(),
            final(self).request == old(self).request,
            final(self).ipv4 == old(self).ipv4,
            final(self).ipv6 == old(self).ipv6,
            final(self).ip_changed == old(self).ip_changed,
            match outcome {
                Ok(reply) => {
                    &&& final(self).retries == old(self).retries
                    &&& step matches UpdateStep::Finished(Ok(res))
                    &&& res.success == contains_text(uppercase(reply@), "OK"@)
                    &&& res.ipv4 == old(self).ipv4
                    &&& res.ipv6 == old(self).ipv6
                    &&& res.ip_changed == old(self).ip_changed
                    &&& res._response == reply
                },
                Err(e) => if old(self).retries < MAX_RETRIES {
                    &&& final(self).retries == old(self).retries + 1
                    &&& step == UpdateStep::RetryAfter(retry_delay((old(self).retries + 1) as nat) as u64)
                } else {
                    &&& final(self).retries == old(self).retries
                    &&& step matches UpdateStep::Finished(Err(m))
                    &&& m@ == exhausted_message(e@)
                },
            },
    {
        match outcome {
            Ok(reply) => {
                let success = reply_reports_success(reply.as_str());
                UpdateStep::Finished(
                    Ok(
                        UpdateResult {
                            success,
                            ipv4: copy_text_opt(&self.ipv4),
                            ipv6: copy_text_opt(&self.ipv6),
                            ip_changed: self.ip_changed,
                            _response: reply,
                        },
                    ),
                )
            },
            Err(e) => {
                if self.retries < MAX_RETRIES {
                    self.retries = self.retries + 1;
                    UpdateStep::RetryAfter(retry_delay_secs(self.retries))
                } else {
                    let mut m = String::from_str("Falha após ");
                    let count = decimal_text((MAX_RETRIES + 1) as u64);
                    m.append(count.as_str());
                    m.append(" tentativas: ");
                    m.append(e.as_str());
                    UpdateStep::Finished(Err(m))
                }
            },
        }
    }
}

/// Law: the wait before each retry is three times the one before, starting
/// at `BASE_RETRY_DELAY_SECS`.
pub proof fn lemma_backoff_triples(k: nat)
    requires
        k >= 1,
    ensures
        retry_delay(1) == BASE_RETRY_DELAY_SECS,
        retry_delay(k + 1) == 3 * retry_delay(k),
{
    assert(pow3(0) == 1);
    assert(pow3(k) == 3 * pow3((k - 1) as nat));
    assert(BASE_RETRY_DELAY_SECS * (3 * pow3((k - 1) as nat)) == 3 * (BASE_RETRY_DELAY_SECS * pow3(
        (k - 1) as nat,
    ))) by (nonlinear_arith);
}

/// Requests a round sends when its successive requests fail as `failures`
/// says (`true` for a failed request): it goes on after a failure while
/// retries remain, and stops at the first reply or at the failure that
/// exhausts them (see `UpdateRound::on_outcome`).
pub open spec fn requests_in_round(retries: nat, failures: Seq<bool>) -> nat
    decreases failures.len(),
{
    if failures.len() == 0 {
        0
    } else if failures[0] && retries < MAX_RETRIES {
        1 + requests_in_round(retries + 1, failures.drop_first())
    } else {
        1
    }
}

proof fn lemma_requests_bound(retries: nat, failures: Seq<bool>)
    requires
        retries <= MAX_RETRIES,
    ensures
        requests_in_round(retries, failures) <= MAX_RETRIES + 1 - retries,
    decreases failures.len(),
{
    if failures.len() > 0 && failures[0] && retries < MAX_RETRIES {
        lemma_requests_bound(retries + 1, failures.drop_first());
    }
}

/// Law: a round sends at most `MAX_RETRIES + 1` requests, whatever their outcomes.
pub proof fn lemma_round_request_limit(failures: Seq<bool>)
    ensures
        requests_in_round(0, failures) <= MAX_RETRIES + 1,
{
    lemma_requests_bound(0, failures);
}

/// Law: once a round's addresses are recorded, a later round that finds the
/// same addresses reports no change (and so sends no request, see
/// `UpdateRound::unchanged_outcome`).
pub proof fn lemma_recorded_addresses_unchanged(
    config: AppConfig,
    result: UpdateResult,
    timestamp: String,
)
    ensures
        !address_changed(result.ipv4, result.ipv6, config.with_update(result, timestamp)),
{
}

/// Law: a round without an IPv6 address (as every round is while IPv6 is
/// disabled, see `UpdateRound::new`) sends no `ipv6` parameter.
pub proof fn lemma_no_ipv6_parameter(domains: Seq<char>, token: Seq<char>, ipv4: Option<Seq<char>>)
    ensures
        forall|k: int|
            0 <= k < update_query(domains, token, ipv4, None).len() ==> (#[trigger] update_query(
                domains,
                token,
                ipv4,
                None,
            )[k]).0 != "ipv6"@,
{
    reveal_strlit("domains");
    reveal_strlit("token");
    reveal_strlit("verbose");
    reveal_strlit("ip");
    reveal_strlit("ipv6");
    let q = update_query(domains, token, ipv4, None);
    assert forall|k: int| 0 <= k < q.len() implies (#[trigger] q[k]).0 != "ipv6"@ by {
        assert(q[k].0.len() != 4 || q[k].0 == "ip"@);
        if q[k].0 == "ip"@ {
            assert(q[k].0.len() == 2);
        }
    }
}

/// Law: settings that pass the form's validation, once their domain text is
/// taken into the domain list, are accepted by the updater.
pub proof fn lemma_validated_settings_accepted(domains_edit: Seq<char>, config: AppConfig)
    requires
        validation_errors(domains_edit, config.token@, config.interval_minutes).len() == 0,
        views(config.domains@) == domain_list(domains_edit),
    ensures
        trim(config.csv_view()).len() > 0,
        trim(config.token@).len() > 0,
{
    let ds = domain_list(domains_edit);
    assert(ds.len() > 0);
    assert(config.domains@.len() > 0);
    lemma_domain_list_shape(domains_edit);
    assert(ds[0].len() > 0 && trim(ds[0]) == ds[0]);
    lemma_trimmed_first(ds[0]);
    lemma_join_first(ds, seq![',']);
    lemma_trim_nonempty(join(ds, seq![',']));
}

/// Law: a round reports a change whenever the fetched IPv4 address differs
/// from the recorded one (the first round, with none recorded yet, included),
/// or, while IPv6 is enabled, the fetched IPv6 address differs from the
/// recorded one; and it reports none when both agree with the record.
pub proof fn lemma_change_detection(ipv4: Option<String>, ipv6: Option<String>, config: AppConfig)
    ensures
        config.last_ipv4 is None && ipv4 is Some ==> address_changed(ipv4, ipv6, config),
        opt_view(ipv4) != opt_view(config.last_ipv4) ==> address_changed(ipv4, ipv6, config),
        config.ipv6_enabled && opt_view(ipv6) != opt_view(config.last_ipv6) ==> address_changed(
            ipv4,
            ipv6,
            config,
        ),
        opt_view(ipv4) == opt_view(config.last_ipv4) && (!config.ipv6_enabled || opt_view(ipv6)
            == opt_view(config.last_ipv6)) ==> !address_changed(ipv4, ipv6, config),
{
}

/// Law: the update query always opens with the domains, the token and
/// `verbose=true`, and it carries `ip=a` for a known IPv4 address `a` and
/// `ipv6=b` for a known IPv6 address `b`, each whatever the other address is.
pub proof fn lemma_query_carries_addresses(
    domains: Seq<char>,
    token: Seq<char>,
    ipv4: Option<Seq<char>>,
    ipv6: Option<Seq<char>>,
)
    ensures
        update_query(domains, token, ipv4, ipv6).len() >= 3,
        update_query(domains, token, ipv4, ipv6)[0] == ("domains"@, domains),
        update_query(domains, token, ipv4, ipv6)[1] == ("token"@, token),
        update_query(domains, token, ipv4, ipv6)[2] == ("verbose"@, "true"@),
        ipv4 matches Some(a) ==> update_query(domains, token, ipv4, ipv6).contains(("ip"@, a)),
        ipv6 matches Some(b) ==> update_query(domains, token, ipv4, ipv6).contains(("ipv6"@, b)),
{
    let q = update_query(domains, token, ipv4, ipv6);
    if let Some(a) = ipv4 {
        assert(q[3] == ("ip"@, a));
    }
    if let Some(b) = ipv6 {
        assert(q[q.len() - 1] == ("ipv6"@, b));
    }
}

} // verus!
