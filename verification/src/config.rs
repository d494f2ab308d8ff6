//! The persisted application settings and the rules that act on them.

use vstd::prelude::*;
use crate::domains::{
    domain_list, free_of, join, join_strings, lemma_join_then_parse, parse_domain_list, views,
};
use crate::paths::{join_path_with, path_join};
use crate::text::{copy_text_opt, trim, trim_text};
use crate::update::UpdateResult;

verus! {

/// Name of the settings file inside the configuration directory.
pub const CONFIG_FILE_NAME: &'static str = "duckdns_config.json";

/// The application settings as stored on disk.
#[derive(Debug, Clone)]
pub struct AppConfig {
    /// Single-domain field of older settings files, kept in step with `domains`.
    pub domain: String,
    pub token: String,
    pub interval_minutes: u32,
    pub last_update: Option<String>,
    pub last_ipv4: Option<String>,
    pub last_ipv6: Option<String>,
    pub update_enabled: bool,
    /// The domains to update (typed comma-separated in the settings form).
    pub domains: Vec<String>,
    /// Register the program to start when the user logs in.
    pub start_with_windows: bool,
    /// Start hidden in the system tray.
    pub start_minimized: bool,
    /// Detect and send the IPv6 address too.
    pub ipv6_enabled: bool,
}

/// The value a settings file that lacks `ipv6_enabled` gets for it.
pub fn default_true() -> (r: bool)
    ensures
        r,
{
    true
}

impl AppConfig {
    /// The settings of a fresh installation.
    pub open spec fn is_default(self) -> bool {
        &&& self.domain@.len() == 0
        &&& self.token@.len() == 0
        &&& self.interval_minutes == 30
        &&& self.last_update is None
        &&& self.last_ipv4 is None
        &&& self.last_ipv6 is None
        &&& self.update_enabled
        &&& self.domains@.len() == 0
        &&& !self.start_with_windows
        &&& !self.start_minimized
        &&& self.ipv6_enabled
    }

    /// The domain text sent to the API: the domains joined with `,`, or the
    /// legacy single-domain field when the list is empty.
    pub open spec fn csv_view(self) -> Seq<char> {
        if self.domains@.len() == 0 {
            self.domain@
        } else {
            join(views(self.domains@), seq![','])
        }
    }

    /// `self` and `other` agree on every setting but the two domain fields.
    pub open spec fn agrees_besides_domains(self, other: Self) -> bool {
        &&& self.token == other.token
        &&& self.interval_minutes == other.interval_minutes
        &&& self.last_update == other.last_update
        &&& self.last_ipv4 == other.last_ipv4
        &&& self.last_ipv6 == other.last_ipv6
        &&& self.update_enabled == other.update_enabled
        &&& self.start_with_windows == other.start_with_windows
        &&& self.start_minimized == other.start_minimized
        &&& self.ipv6_enabled == other.ipv6_enabled
    }

    /// Both a domain and a token are set (untrimmed), as the tray and the
    /// periodic updater require before they start a round.
    pub open spec fn has_credentials_spec(self) -> bool {
        self.csv_view().len() > 0 && self.token@.len() > 0
    }

    /// Path of the settings file inside the configuration directory `dir`,
    /// `sep` being the platform's main path separator.
    pub fn get_config_path(dir: &str, sep: char) -> (r: String)
        ensures
            r@ == path_join(dir@, CONFIG_FILE_NAME@, sep),
    {
        join_path_with(dir, CONFIG_FILE_NAME, sep)
    }

    /// The settings that loading yields from the parsed settings file, `None`
    /// when the file is missing or unreadable: the defaults then; otherwise the
    /// file's settings, where an empty domain list is filled from the legacy
    /// single-domain field.
    pub fn load_from(parsed: Option<AppConfig>) -> (r: AppConfig)
        ensures
            parsed is None ==> r.is_default(),
            parsed matches Some(c) ==> {
                &&& r.agrees_besides_domains(c)
                &&& r.domain == c.domain
                &&& if c.domains@.len() == 0 && c.domain@.len() > 0 {
                    views(r.domains@) == domain_list(c.domain@)
                } else {
                    r.domains == c.domains
                }
            },
    {
        match parsed {
            None => AppConfig::default(),
            Some(mut config) => {
                if config.domains.len() == 0 && config.domain.unicode_len() > 0 {
                    config.domains = parse_domain_list(config.domain.as_str());
                }
                config
            },
        }
    }

    /// The domain text for the DuckDNS API (see `csv_view`).
    pub fn domains_csv(&self) -> (r: String)
        ensures
            r@ == self.csv_view(),
    {
        if self.domains.len() == 0 {
            self.domain.clone()
        } else {
            let r = join_strings(&self.domains, ",");
            proof {
                reveal_strlit(",");
                assert(","@ =~= seq![',']);
            }
            r
        }
    }

    /// The text the settings form starts with: the domains joined with `, `,
    /// or the legacy single-domain field when the list is empty.
    pub fn domains_edit_text(&self) -> (r: String)
        ensures
            r@ == (if self.domains@.len() == 0 {
                self.domain@
            } else {
                join(views(self.domains@), seq![',', ' '])
            }),
    {
        if self.domains.len() == 0 {
            self.domain.clone()
        } else {
            let r = join_strings(&self.domains, ", ");
            proof {
                reveal_strlit(", ");
                assert(", "@ =~= seq![',', ' ']);
            }
            r
        }
    }

    /// Takes the domains typed in the settings form: the list becomes the
    /// domains the text names, and the legacy field their comma-joined form
    /// (it keeps its text when the list comes out empty).
    pub fn apply_domains_edit(&mut self, edit: &str)
        ensures
            views(final(self).domains@) == domain_list(edit@),
            final(self).domain@ == (if final(self).domains@.len() == 0 {
                old(self).domain@
            } else {
                join(views(final(self).domains@), seq![','])
            }),
            final(self).domain@ == final(self).csv_view(),
            final(self).agrees_besides_domains(*old(self)),
    {
        self.domains = parse_domain_list(edit);
        self.domain = self.domains_csv();
    }

    /// The settings after recording a completed round made at `timestamp`.
    pub open spec fn with_update(self, result: UpdateResult, timestamp: String) -> AppConfig {
        AppConfig {
            last_update: Some(timestamp),
            last_ipv4: result.ipv4,
            last_ipv6: if self.ipv6_enabled {
                result.ipv6
            } else {
                self.last_ipv6
            },
            ..self
        }
    }

    /// Records a completed update round made at `timestamp`: its addresses
    /// become the last known ones (the IPv6 one only while IPv6 is enabled).
    pub fn record_update(&mut self, result: &UpdateResult, timestamp: String)
        ensures
            *final(self) == old(self).with_update(*result, timestamp),
    {
        self.last_update = Some(timestamp);
        self.last_ipv4 = copy_text_opt(&result.ipv4);
        if self.ipv6_enabled {
            self.last_ipv6 = copy_text_opt(&result.ipv6);
        }
    }

    /// Seconds between periodic updates: the interval in minutes, at least one.
    pub fn interval_secs(&self) -> (r: u64)
        ensures
            r == (if self.interval_minutes < 1 {
                1
            } else {
                self.interval_minutes
            }) * 60,
    {
        let minutes: u64 = if self.interval_minutes < 1 {
            1
        } else {
            self.interval_minutes as u64
        };
        minutes * 60
    }

    /// Both a domain and a token are set (see `has_credentials_spec`).
    pub fn has_credentials(&self) -> (r: bool)
        ensures
            r == self.has_credentials_spec(),
    {
        let csv = self.domains_csv();
        csv.unicode_len() > 0 && self.token.unicode_len() > 0
    }

    /// Whether the periodic updater runs a round: updates are enabled and a
    /// domain and a token are set.
    pub fn should_auto_update(&self) -> (r: bool)
        ensures
            r == (self.update_enabled && self.has_credentials_spec()),
    {
        self.update_enabled && self.has_credentials()
    }
}

/// Law: when the settings hold at least one domain and each is non-empty,
/// free of surrounding whitespace and of commas, their domain text, split as
/// loading and the settings form split it, gives back the same domains.
pub proof fn lemma_domains_csv_reads_back(c: AppConfig)
    requires
        c.domains@.len() > 0,
        forall|k: int|
            0 <= k < c.domains@.len() ==> (#[trigger] c.domains@[k])@.len() > 0 && trim(
                c.domains@[k]@,
            ) == c.domains@[k]@ && free_of(c.domains@[k]@, ','),
    ensures
        domain_list(c.csv_view()) == views(c.domains@),
{
    let ds = views(c.domains@);
    assert forall|k: int|
        0 <= k < ds.len() implies (#[trigger] ds[k]).len() > 0 && trim(ds[k]) == ds[k] && free_of(
        ds[k],
        ',',
    ) by {
        assert(ds[k] == c.domains@[k]@);
    }
    lemma_join_then_parse(ds);
}

impl Default for AppConfig {
    fn default() -> (r: Self)
        ensures
            r.is_default(),
    {
        AppConfig {
            domain: String::new(),
            token: String::new(),
            interval_minutes: 30,
            last_update: None,
            last_ipv4: None,
            last_ipv6: None,
            update_enabled: true,
            domains: Vec::new(),
            start_with_windows: false,
            start_minimized: false,
            ipv6_enabled: default_true(),
        }
    }
}

/// The messages the settings form shows, in order, for the typed domain text,
/// token and interval.
pub open spec fn validation_errors(domains_edit: Seq<char>, token: Seq<char>, interval_minutes: u32) -> Seq<Seq<char>> {
    let d: Seq<Seq<char>> = if domain_list(domains_edit).len() == 0 {
        seq!["Domínio não pode estar vazio."@]
    } else {
        Seq::empty()
    };
    let t: Seq<Seq<char>> = if trim(token).len() == 0 {
        seq!["Token não pode estar vazio."@]
    } else {
        Seq::empty()
    };
    let i: Seq<Seq<char>> = if interval_minutes < 1 {
        seq!["Intervalo deve ser >= 1 minuto."@]
    } else {
        Seq::empty()
    };
    d + t + i
}

/// Checks the settings form: no domain named, blank token, zero interval.
pub fn validate_settings(domains_edit: &str, token: &str, interval_minutes: u32) -> (r: Vec<String>)
    ensures
        views(r@) == validation_errors(domains_edit@, token@, interval_minutes),
        interval_minutes >= 1 ==> !views(r@).contains("Intervalo deve ser >= 1 minuto."@),
        r@.len() == 0 <==> (domain_list(domains_edit@).len() > 0 && trim(token@).len() > 0
            && interval_minutes >= 1),
{
    proof {
        lemma_interval_message_only_below_one(domains_edit@, token@, interval_minutes);
    }
    let mut errors: Vec<String> = Vec::new();
    let domains = parse_domain_list(domains_edit);
    if domains.len() == 0 {
        errors.push(String::from_str("Domínio não pode estar vazio."));
    }
    let t = trim_text(token);
    if t.unicode_len() == 0 {
        errors.push(String::from_str("Token não pode estar vazio."));
    }
    if interval_minutes < 1 {
        errors.push(String::from_str("Intervalo deve ser >= 1 minuto."));
    }
    assert(views(errors@) =~= validation_errors(domains_edit@, token@, interval_minutes));
    errors
}

/// Law: the interval message shows exactly when the interval is below one
/// minute, whatever the domain text and the token; and the form shows no
/// message at all exactly when it names a domain, the token is not blank and
/// the interval is at least one minute.
pub proof fn lemma_interval_message_only_below_one(
    domains_edit: Seq<char>,
    token: Seq<char>,
    interval_minutes: u32,
)
    ensures
        validation_errors(domains_edit, token, interval_minutes).contains(
            "Intervalo deve ser >= 1 minuto."@,
        ) <==> interval_minutes < 1,
        validation_errors(domains_edit, token, interval_minutes).len() == 0 <==> (domain_list(
            domains_edit,
        ).len() > 0 && trim(token).len() > 0 && interval_minutes >= 1),
{
    reveal_strlit("Domínio não pode estar vazio.");
    reveal_strlit("Token não pode estar vazio.");
    reveal_strlit("Intervalo deve ser >= 1 minuto.");
    let e = validation_errors(domains_edit, token, interval_minutes);
    let im = "Intervalo deve ser >= 1 minuto."@;
    assert(im[0] == 'I');
    assert("Domínio não pode estar vazio."@[0] == 'D');
    assert("Token não pode estar vazio."@[0] == 'T');
    if interval_minutes < 1 {
        assert(e[e.len() - 1] == im);
    } else {
        assert forall|k: int| 0 <= k < e.len() implies e[k] != im by {
            assert(e[k] == "Domínio não pode estar vazio."@ || e[k] == "Token não pode estar vazio."@);
            assert(e[k][0] != 'I');
        }
    }
}

} // verus!
