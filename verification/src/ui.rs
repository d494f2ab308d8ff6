//! The decisions and texts behind the settings window: status line and its
//! tone, the messages exchanged while a round runs, and the countdown to the
//! next periodic round.

use vstd::prelude::*;
use crate::numbers::{decimal, decimal2, decimal2_text, decimal_text};
use crate::text::{contains_text, occurs_at, text_contains, text_or};
use crate::config::AppConfig;
use crate::update::UpdateResult;

verus! {

/// Messages a round started from the window sends back to it.
pub enum UiUpdateMsg {
    Started,
    Finished { success: bool, message: String, ip_changed: bool },
}

/// Status line shown before anything happened.
pub open spec fn ready_message() -> Seq<char> {
    "Pronto."@
}

/// Status line while a round runs.
pub open spec fn updating_message() -> Seq<char> {
    "Atualizando IP no DuckDNS..."@
}

/// An optional address for display (`N/A` when unknown).
pub open spec fn shown(o: Option<String>) -> Seq<char> {
    text_or(o, "N/A"@)
}

/// Status line after a successful round with these addresses.
pub open spec fn updated_message(ipv4: Option<String>, ipv6: Option<String>) -> Seq<char> {
    "Atualizado! IPv4: "@ + shown(ipv4) + " | IPv6: "@ + shown(ipv6)
}

/// Notification text after a successful background round.
pub open spec fn background_success_body(ipv4: Option<String>, ipv6: Option<String>) -> Seq<char> {
    "Atualizado com sucesso!\nIPv4: "@ + shown(ipv4) + "\nIPv6: "@ + shown(ipv6)
}

/// An optional address for display.
fn shown_text(o: &Option<String>) -> (r: String)
    ensures
        r@ == shown(*o),
{
    match o {
        Some(s) => s.clone(),
        None => String::from_str("N/A"),
    }
}

/// The status line after a successful round with these addresses.
pub fn updated_text(ipv4: &Option<String>, ipv6: &Option<String>) -> (r: String)
    ensures
        r@ == updated_message(*ipv4, *ipv6),
{
    let mut m = String::from_str("Atualizado! IPv4: ");
    m.append(shown_text(ipv4).as_str());
    m.append(" | IPv6: ");
    m.append(shown_text(ipv6).as_str());
    m
}

/// The notification text after a successful background round.
pub fn background_success_text(ipv4: &Option<String>, ipv6: &Option<String>) -> (r: String)
    ensures
        r@ == background_success_body(*ipv4, *ipv6),
{
    let mut m = String::from_str("Atualizado com sucesso!\nIPv4: ");
    m.append(shown_text(ipv4).as_str());
    m.append("\nIPv6: ");
    m.append(shown_text(ipv6).as_str());
    m
}

/// The notification after a successful background round: shown only when
/// the public address changed.
pub fn background_success_notice(result: &UpdateResult) -> (r: Option<String>)
    ensures
        r is Some <==> result.ip_changed,
        r matches Some(body) ==> body@ == background_success_body(result.ipv4, result.ipv6),
{
    if result.ip_changed {
        Some(background_success_text(&result.ipv4, &result.ipv6))
    } else {
        None
    }
}

/// `prefix` followed by `detail`.
fn prefixed(prefix: &str, detail: &str) -> (r: String)
    ensures
        r@ == prefix@ + detail@,
{
    let mut m = String::from_str(prefix);
    m.append(detail);
    m
}

/// The notification text after a failed background round.
pub fn background_failure_text(err: &str) -> (r: String)
    ensures
        r@ == "Falha na atualização: "@ + err@,
{
    prefixed("Falha na atualização: ", err)
}

/// The status line when registering or unregistering auto-start failed.
pub fn autostart_error_text(err: &str) -> (r: String)
    ensures
        r@ == "Erro ao configurar auto-start: "@ + err@,
{
    prefixed("Erro ao configurar auto-start: ", err)
}

/// Takes the outcome of registering or unregistering auto-start as the
/// settings ask, while the settings are saved. On success the registration
/// state follows the settings and saving goes on (`None`). On failure the
/// setting is put back to the registration state and saving stops with the
/// status line returned.
pub fn apply_autostart_outcome(
    config: &mut AppConfig,
    registered: &mut bool,
    outcome: Result<(), String>,
) -> (r: Option<String>)
    ensures
        outcome is Ok ==> {
            &&& r is None
            &&& *final(registered) == old(config).start_with_windows
            &&& *final(config) == *old(config)
        },
        outcome matches Err(e) ==> {
            &&& r matches Some(m) && m@ == "Erro ao configurar auto-start: "@ + e@
            &&& *final(registered) == *old(registered)
            &&& *final(config) == (AppConfig { start_with_windows: *old(registered), ..*old(config) })
        },
{
    match outcome {
        Ok(()) => {
            *registered = config.start_with_windows;
            None
        },
        Err(e) => {
            config.start_with_windows = *registered;
            Some(autostart_error_text(e.as_str()))
        },
    }
}

/// The status line after the settings were written, or failed to be.
pub fn settings_saved_text(outcome: &Result<(), String>) -> (r: String)
    ensures
        outcome is Ok ==> r@ == "Configurações salvas com sucesso!"@,
        outcome matches Err(e) ==> r@ == "Erro ao salvar: "@ + e@,
{
    match outcome {
        Ok(()) => String::from_str("Configurações salvas com sucesso!"),
        Err(e) => prefixed("Erro ao salvar: ", e.as_str()),
    }
}

/// The status line after the history was exported to `path`.
pub fn csv_exported_text(path: &str) -> (r: String)
    ensures
        r@ == "CSV exportado: "@ + path@,
{
    prefixed("CSV exportado: ", path)
}

impl UiUpdateMsg {
    /// The message a round started from the window sends when it ends. A
    /// completed round counts as a success whatever the endpoint replied.
    pub fn from_outcome(outcome: &Result<UpdateResult, String>) -> (r: UiUpdateMsg)
        ensures
            outcome matches Ok(res) ==> r matches UiUpdateMsg::Finished { success, message, ip_changed } && success
                && message@ == updated_message(res.ipv4, res.ipv6) && ip_changed == res.ip_changed,
            outcome matches Err(e) ==> r matches UiUpdateMsg::Finished { success, message, ip_changed } && !success
                && message@ == "Falha: "@ + e@ && !ip_changed,
    {
        match outcome {
            Ok(res) => UiUpdateMsg::Finished {
                success: true,
                message: updated_text(&res.ipv4, &res.ipv6),
                ip_changed: res.ip_changed,
            },
            Err(e) => UiUpdateMsg::Finished {
                success: false,
                message: prefixed("Falha: ", e.as_str()),
                ip_changed: false,
            },
        }
    }
}

/// The window's view of the round in progress.
pub struct UiStatus {
    pub is_updating: bool,
    pub status_message: String,
}

impl UiStatus {
    /// Nothing running, status "Pronto.".
    pub fn new() -> (r: UiStatus)
        ensures
            !r.is_updating,
            r.status_message@ == ready_message(),
    {
        UiStatus { is_updating: false, status_message: String::from_str("Pronto.") }
    }

    /// Whether a new round may be started from the window: none is running.
    pub fn can_start_update(&self) -> (r: bool)
        ensures
            r == !self.is_updating,
    {
        !self.is_updating
    }

    /// Takes a message from the running round. `Started` marks the round as
    /// running; `Finished` clears that and shows its message, and the result
    /// is its success flag, telling the window to record the round in the
    /// history (with that message) and, on success, to reload the settings.
    pub fn apply(&mut self, msg: UiUpdateMsg) -> (r: Option<bool>)
        ensures
            msg is Started ==> {
                &&& r is None
                &&& final(self).is_updating
                &&& final(self).status_message@ == updating_message()
            },
            msg matches UiUpdateMsg::Finished { success, message, ip_changed } ==> {
                &&& r == Some(success)
                &&& !final(self).is_updating
                &&& final(self).status_message == message
            },
    {
        match msg {
            UiUpdateMsg::Started => {
                self.is_updating = true;
                self.status_message = String::from_str("Atualizando IP no DuckDNS...");
                None
            },
            UiUpdateMsg::Finished { success, message, ip_changed: _ } => {
                self.is_updating = false;
                self.status_message = message;
                Some(success)
            },
        }
    }
}

/// Whether a round is running after the window takes `msgs`, having been
/// running or not (`is_updating`) before: the last message decides.
pub open spec fn updating_after(is_updating: bool, msgs: Seq<UiUpdateMsg>) -> bool {
    if msgs.len() == 0 {
        is_updating
    } else {
        msgs.last() is Started
    }
}

/// The status line after the window takes `msgs`, showing `before` until then.
pub open spec fn status_after(before: Seq<char>, msgs: Seq<UiUpdateMsg>) -> Seq<char> {
    if msgs.len() == 0 {
        before
    } else {
        match msgs.last() {
            UiUpdateMsg::Started => updating_message(),
            UiUpdateMsg::Finished { message, .. } => message@,
        }
    }
}

/// The success flag and message of each `Finished` among `msgs`, in order:
/// the rounds the window records in its history.
pub open spec fn finished_records(msgs: Seq<UiUpdateMsg>) -> Seq<(bool, Seq<char>)>
    decreases msgs.len(),
{
    if msgs.len() == 0 {
        Seq::empty()
    } else {
        let r = finished_records(msgs.drop_last());
        match msgs.last() {
            UiUpdateMsg::Started => r,
            UiUpdateMsg::Finished { success, message, .. } => r.push((success, message@)),
        }
    }
}

/// How many of `msgs` are `Finished`.
pub open spec fn finished_count(msgs: Seq<UiUpdateMsg>) -> nat
    decreases msgs.len(),
{
    if msgs.len() == 0 {
        0
    } else {
        finished_count(msgs.drop_last()) + (if msgs.last() is Finished {
            1nat
        } else {
            0nat
        })
    }
}

/// The characters of recorded (success, message) pairs.
pub open spec fn record_views(v: Seq<(bool, String)>) -> Seq<(bool, Seq<char>)> {
    v.map_values(|p: (bool, String)| (p.0, p.1@))
}

impl UiStatus {
    /// Takes every message waiting from the running round, in order (see
    /// `apply`), and returns the rounds to record in the history: the
    /// success flag and message of each `Finished`, in order.
    pub fn apply_all(&mut self, msgs: Vec<UiUpdateMsg>) -> (r: Vec<(bool, String)>)
        ensures
            final(self).is_updating == updating_after(old(self).is_updating, msgs@),
            final(self).status_message@ == status_after(old(self).status_message@, msgs@),
            record_views(r@) == finished_records(msgs@),
    {
        let ghost all = msgs@;
        let mut rest = msgs;
        let mut records: Vec<(bool, String)> = Vec::new();
        let ghost mut done: int = 0;
        assert(all.take(0) =~= Seq::<UiUpdateMsg>::empty());
        while rest.len() > 0
            invariant
                0 <= done <= all.len(),
                rest@ == all.subrange(done, all.len() as int),
                self.is_updating == updating_after(old(self).is_updating, all.take(done)),
                self.status_message@ == status_after(old(self).status_message@, all.take(done)),
                record_views(records@) == finished_records(all.take(done)),
            decreases rest.len(),
        {
            let m = rest.remove(0);
            assert(m == all[done]);
            assert(all.take(done + 1).drop_last() =~= all.take(done));
            assert(all.take(done + 1).last() == m);
            let outcome = self.apply(m);
            match outcome {
                Some(success) => {
                    records.push((success, self.status_message.clone()));
                },
                None => {},
            }
            assert(record_views(records@) =~= finished_records(all.take(done + 1)));
            proof {
                assert(rest@ =~= all.subrange(done + 1, all.len() as int));
                done = done + 1;
            }
        }
        assert(all.take(all.len() as int) =~= all);
        records
    }
}

/// Law: after the window takes the waiting messages, a round is running
/// exactly when the last of them is `Started` (as before when there are
/// none), and it records one history entry per `Finished` among them; with
/// `history::lemma_add_each`, the history grows by that many entries while
/// there is room.
pub proof fn lemma_drained_messages(is_updating: bool, msgs: Seq<UiUpdateMsg>)
    ensures
        msgs.len() > 0 ==> (updating_after(is_updating, msgs) <==> msgs.last() is Started),
        msgs.len() == 0 ==> updating_after(is_updating, msgs) == is_updating,
        finished_records(msgs).len() == finished_count(msgs),
    decreases msgs.len(),
{
    if msgs.len() > 0 {
        lemma_drained_messages(is_updating, msgs.drop_last());
    }
}

/// How the status line is coloured.
#[derive(Debug, Clone, Copy, PartialEq, Eq)]
pub enum StatusTone {
    Error,
    Success,
    Info,
}

/// The tone of a status line: an error when it mentions `Falha` or `Erro`,
/// otherwise a success when it mentions `sucesso` or `Atualizado`.
pub open spec fn tone_of(message: Seq<char>) -> StatusTone {
    if contains_text(message, "Falha"@) || contains_text(message, "Erro"@) {
        StatusTone::Error
    } else if contains_text(message, "sucesso"@) || contains_text(message, "Atualizado"@) {
        StatusTone::Success
    } else {
        StatusTone::Info
    }
}

/// The tone of a status line (see `tone_of`).
pub fn status_tone(message: &str) -> (r: StatusTone)
    ensures
        r == tone_of(message@),
{
    if text_contains(message, "Falha") || text_contains(message, "Erro") {
        StatusTone::Error
    } else if text_contains(message, "sucesso") || text_contains(message, "Atualizado") {
        StatusTone::Success
    } else {
        StatusTone::Info
    }
}

/// Whether some message of `errors` mentions `word`: the settings form
/// outlines a field in red when a validation error names it.
pub fn any_mentions(errors: &Vec<String>, word: &str) -> (r: bool)
    ensures
        r == exists|i: int| 0 <= i < errors@.len() && contains_text(#[trigger] errors@[i]@, word@),
{
    let mut i: usize = 0;
    while i < errors.len()
        invariant
            i <= errors@.len(),
            forall|j: int| 0 <= j < i ==> !contains_text(#[trigger] errors@[j]@, word@),
        decreases errors@.len() - i,
    {
        if text_contains(errors[i].as_str(), word) {
            return true;
        }
        i += 1;
    }
    false
}

/// Seconds left before the next periodic round, `elapsed` seconds after the
/// last one with the given interval (none left once it is due).
pub fn countdown_remaining(interval_secs: u64, elapsed: u64) -> (r: u64)
    ensures
        r == (if elapsed >= interval_secs {
            0
        } else {
            interval_secs - elapsed
        }),
{
    if elapsed >= interval_secs {
        0
    } else {
        interval_secs - elapsed
    }
}

/// The countdown as shown: whole minutes, `min `, seconds on two digits, `s`.
pub open spec fn countdown_display(remaining: nat) -> Seq<char> {
    decimal(remaining / 60) + "min "@ + decimal2(remaining % 60) + "s"@
}

/// The countdown text for `remaining` seconds.
pub fn countdown_text(remaining: u64) -> (r: String)
    ensures
        r@ == countdown_display(remaining as nat),
{
    let mut t = decimal_text(remaining / 60);
    t.append("min ");
    t.append(decimal2_text(remaining % 60).as_str());
    t.append("s");
    t
}

/// Law: the countdown never exceeds the interval, and the minutes and seconds
/// it shows add up to the seconds left.
pub proof fn lemma_countdown_consistent(interval_secs: u64, elapsed: u64)
    ensures
        ({
            let rem = if elapsed >= interval_secs {
                0
            } else {
                interval_secs - elapsed
            };
            &&& rem <= interval_secs
            &&& (rem / 60) * 60 + rem % 60 == rem
            &&& rem % 60 < 60
        }),
{
    let rem: int = if elapsed >= interval_secs {
        0
    } else {
        interval_secs - elapsed
    };
    assert((rem / 60) * 60 + rem % 60 == rem) by (nonlinear_arith)
        requires
            rem >= 0,
    ;
}

/// Law: the countdown shows the whole minutes left, then the seconds left
/// over on two digits: for `m` minutes and `s < 60` seconds it reads `m`,
/// `min `, `s`, `s`.
pub proof fn lemma_countdown_minutes_and_seconds(m: nat, s: nat)
    requires
        s < 60,
    ensures
        countdown_display(m * 60 + s) == decimal(m) + "min "@ + decimal2(s) + "s"@,
{
    assert((m * 60 + s) / 60 == m && (m * 60 + s) % 60 == s) by (nonlinear_arith)
        requires
            s < 60,
    ;
}

/// `needle` does not occur in `hay` when its first character occurs in `hay`
/// at most at `at`, and there `hay` does not hold all of `needle`.
proof fn lemma_not_contained(hay: Seq<char>, needle: Seq<char>, at: int)
    requires
        needle.len() > 0,
        forall|j: int| 0 <= j < hay.len() && hay[j] == needle[0] ==> j == at,
        !occurs_at(hay, needle, at),
    ensures
        !contains_text(hay, needle),
{
    assert forall|i: int| !occurs_at(hay, needle, i) by {
        if occurs_at(hay, needle, i) {
            assert(hay.subrange(i, i + needle.len())[0] == hay[i]);
        }
    }
}

/// Law: a status line that mentions `Falha` or `Erro` has the error tone; one
/// that mentions neither but mentions `sucesso` or `Atualizado` has the
/// success tone; one that mentions none of the four has the neutral tone, as
/// the line shown while a round runs does.
pub proof fn lemma_tone_by_words(message: Seq<char>)
    ensures
        contains_text(message, "Falha"@) || contains_text(message, "Erro"@) ==> tone_of(message)
            == StatusTone::Error,
        !contains_text(message, "Falha"@) && !contains_text(message, "Erro"@) && (contains_text(
            message,
            "sucesso"@,
        ) || contains_text(message, "Atualizado"@)) ==> tone_of(message) == StatusTone::Success,
        !contains_text(message, "Falha"@) && !contains_text(message, "Erro"@) && !contains_text(
            message,
            "sucesso"@,
        ) && !contains_text(message, "Atualizado"@) ==> tone_of(message) == StatusTone::Info,
        tone_of(updating_message()) == StatusTone::Info,
{
    reveal_strlit("Atualizando IP no DuckDNS...");
    reveal_strlit("Falha");
    reveal_strlit("Erro");
    reveal_strlit("sucesso");
    reveal_strlit("Atualizado");
    let u = updating_message();
    assert(u.len() == 28);
    lemma_not_contained(u, "Falha"@, -1);
    lemma_not_contained(u, "Erro"@, -1);
    lemma_not_contained(u, "sucesso"@, -1);
    assert(u.subrange(0, 10)[8] == u[8]);
    lemma_not_contained(u, "Atualizado"@, 0);
}

} // verus!
