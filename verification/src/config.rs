//! The relay's configuration.
use crate::settings;
use crate::settings::{parse_toml, write_toml, Setting, SettingView};
use crate::text::{chars_of, same_text};
use vstd::prelude::*;

verus! {

/// How a relay is set up.
#[derive(Debug)]
pub struct RelayConfig {
    /// The address to listen on.
    pub bind: String,
    /// How long a host may wait for a client.
    pub host_ttl_secs: u64,
    /// How long a peer may take for its handshake line.
    pub handshake_timeout_secs: u64,
    /// What every handshake must carry. Empty: nothing.
    pub shared_secret: String,
}

/// A configuration, as mathematical values.
pub struct RelayConfigView {
    pub bind: Seq<char>,
    pub host_ttl_secs: u64,
    pub handshake_timeout_secs: u64,
    pub shared_secret: Seq<char>,
}

impl View for RelayConfig {
    type V = RelayConfigView;

    open spec fn view(&self) -> RelayConfigView {
        RelayConfigView {
            bind: self.bind@,
            host_ttl_secs: self.host_ttl_secs,
            handshake_timeout_secs: self.handshake_timeout_secs,
            shared_secret: self.shared_secret@,
        }
    }
}

impl Clone for RelayConfig {
    fn clone(&self) -> (r: Self)
        ensures
            r@ == self@,
    {
        RelayConfig {
            bind: self.bind.clone(),
            host_ttl_secs: self.host_ttl_secs,
            handshake_timeout_secs: self.handshake_timeout_secs,
            shared_secret: self.shared_secret.clone(),
        }
    }
}

/// The configuration of a relay that was told nothing.
pub open spec fn default_config() -> RelayConfigView {
    RelayConfigView {
        bind: "0.0.0.0:7800"@,
        host_ttl_secs: 600,
        handshake_timeout_secs: 15,
        shared_secret: ""@,
    }
}

/// The listening address where none is given.
pub fn default_bind() -> (s: String)
    ensures
        s@ == "0.0.0.0:7800"@,
{
    "0.0.0.0:7800".to_owned()
}

/// The host waiting time where none is given.
pub fn default_host_ttl() -> (n: u64)
    ensures
        n == 600,
{
    600
}

/// The handshake timeout where none is given.
pub fn default_handshake_timeout() -> (n: u64)
    ensures
        n == 15,
{
    15
}

impl Default for RelayConfig {
    fn default() -> (c: Self)
        ensures
            c@ == default_config(),
    {
        let c = RelayConfig {
            bind: default_bind(),
            host_ttl_secs: default_host_ttl(),
            handshake_timeout_secs: default_handshake_timeout(),
            shared_secret: String::new(),
        };
        proof {
            reveal_strlit("");
            assert(c.shared_secret@ == ""@);
        }
        c
    }
}

// ---------------------------------------------------------------------------
// Reading
// ---------------------------------------------------------------------------

/// The text under `key`: `missing` where there is none, and no text at all
/// where the value is of another kind.
pub open spec fn text_setting(
    m: Map<Seq<char>, Option<SettingView>>,
    key: Seq<char>,
    missing: Seq<char>,
) -> Option<Seq<char>> {
    if !m.contains_key(key) {
        Some(missing)
    } else {
        match m[key] {
            Some(SettingView::Text(s)) => Some(s),
            _ => None,
        }
    }
}

/// The number of seconds under `key`: `missing` where there is none, and no
/// number at all where the value is negative or of another kind.
pub open spec fn secs_setting(
    m: Map<Seq<char>, Option<SettingView>>,
    key: Seq<char>,
    missing: u64,
) -> Option<u64> {
    if !m.contains_key(key) {
        Some(missing)
    } else {
        match m[key] {
            Some(SettingView::Integer(i)) => if i >= 0 {
                Some(i as u64)
            } else {
                None
            },
            _ => None,
        }
    }
}

/// The configuration that settings stand for. A setting that is not there has
/// its default; one of the wrong kind spoils the whole.
pub open spec fn config_of(m: Map<Seq<char>, Option<SettingView>>) -> Option<RelayConfigView> {
    let d = default_config();
    match (
        text_setting(m, "bind"@, d.bind),
        secs_setting(m, "host_ttl_secs"@, d.host_ttl_secs),
        secs_setting(m, "handshake_timeout_secs"@, d.handshake_timeout_secs),
        text_setting(m, "shared_secret"@, d.shared_secret),
    ) {
        (
            Some(bind),
            Some(host_ttl_secs),
            Some(handshake_timeout_secs),
            Some(shared_secret),
        ) => Some(
            RelayConfigView { bind, host_ttl_secs, handshake_timeout_secs, shared_secret },
        ),
        _ => None,
    }
}

/// The configuration that a file gives: the defaults where there is no file,
/// or where it cannot be understood.
pub open spec fn loaded(file: Option<Seq<char>>) -> RelayConfigView {
    match file {
        Some(text) => match settings::toml_settings(text) {
            Some(m) => match config_of(m) {
                Some(c) => c,
                None => default_config(),
            },
            None => default_config(),
        },
        None => default_config(),
    }
}

/// Looks `key` up.
fn find_setting<'a>(entries: &'a Vec<(String, Option<Setting>)>, key: &str) -> (r: Option<
    &'a Option<Setting>,
>)
    ensures
        match r {
            Some(v) => settings::settings_map(entries@).contains_key(key@) && settings::settings_map(entries@)[key@]
                == settings::value_view(*v),
            None => !settings::settings_map(entries@).contains_key(key@),
        },
{
    let mut i: usize = 0;
    proof {
        assert(entries@.skip(0) == entries@);
    }
    while i < entries.len()
        invariant
            i <= entries@.len(),
            settings::settings_map(entries@).contains_key(key@) == settings::settings_map(
                entries@.skip(i as int),
            ).contains_key(key@),
            settings::settings_map(entries@)[key@] == settings::settings_map(entries@.skip(i as int))[key@],
        decreases entries@.len() - i,
    {
        proof {
            assert(entries@.skip(i as int).drop_first() == entries@.skip(i + 1));
        }
        if same_text(entries[i].0.as_str(), key) {
            return Some(&entries[i].1);
        }
        i = i + 1;
    }
    None
}

fn find_text(entries: &Vec<(String, Option<Setting>)>, key: &str, missing: String) -> (r: Option<
    String,
>)
    ensures
        match r {
            Some(s) => text_setting(settings::settings_map(entries@), key@, missing@) == Some(s@),
            None => text_setting(settings::settings_map(entries@), key@, missing@) is None,
        },
{
    match find_setting(entries, key) {
        Some(Some(Setting::Text(s))) => Some(s.clone()),
        Some(_) => None,
        None => Some(missing),
    }
}

fn find_secs(entries: &Vec<(String, Option<Setting>)>, key: &str, missing: u64) -> (r: Option<u64>)
    ensures
        r == secs_setting(settings::settings_map(entries@), key@, missing),
{
    match find_setting(entries, key) {
        Some(Some(Setting::Integer(i))) => if *i >= 0 {
            Some(*i as u64)
        } else {
            None
        },
        Some(_) => None,
        None => Some(missing),
    }
}

impl RelayConfig {
    /// The configuration that settings stand for, where each of them is of the
    /// right kind.
    pub fn from_settings(entries: &Vec<(String, Option<Setting>)>) -> (r: Option<Self>)
        ensures
            match r {
                Some(c) => config_of(settings::settings_map(entries@)) == Some(c@),
                None => config_of(settings::settings_map(entries@)) is None,
            },
    {
        let d = RelayConfig::default();
        match (
            find_text(entries, "bind", d.bind),
            find_secs(entries, "host_ttl_secs", d.host_ttl_secs),
            find_secs(entries, "handshake_timeout_secs", d.handshake_timeout_secs),
            find_text(entries, "shared_secret", d.shared_secret),
        ) {
            (
                Some(bind),
                Some(host_ttl_secs),
                Some(handshake_timeout_secs),
                Some(shared_secret),
            ) => Some(
                RelayConfig { bind, host_ttl_secs, handshake_timeout_secs, shared_secret },
            ),
            _ => None,
        }
    }

    /// The configuration in a TOML file, from the file's text, or `None` where
    /// the file could not be read. Missing or invalid: the defaults.
    pub fn load(file: Option<&str>) -> (c: Self)
        ensures
            c@ == loaded(match file {
                Some(text) => Some(text@),
                None => None,
            }),
    {
        match file {
            Some(text) => match parse_toml(text) {
                Some(entries) => match RelayConfig::from_settings(&entries) {
                    Some(c) => c,
                    None => RelayConfig::default(),
                },
                None => RelayConfig::default(),
            },
            None => RelayConfig::default(),
        }
    }
}

// ---------------------------------------------------------------------------
// Writing
// ---------------------------------------------------------------------------

/// Why a configuration cannot be written.
#[derive(Debug, Clone, Copy, PartialEq, Eq, Structural)]
pub enum SaveError {
    /// A number of seconds is beyond what TOML can hold.
    OutOfRange,
}

impl SaveError {
    /// What the user is told.
    pub fn message(&self) -> (s: &'static str)
        ensures
            s@ == "out-of-range value for u64 type"@,
    {
        match self {
            SaveError::OutOfRange => "out-of-range value for u64 type",
        }
    }
}

/// Whether TOML can hold both numbers of seconds.
pub open spec fn in_range(c: RelayConfigView) -> bool {
    c.host_ttl_secs <= i64::MAX && c.handshake_timeout_secs <= i64::MAX
}

/// The settings of a configuration, in the order in which they are written.
pub open spec fn settings_of(c: RelayConfigView) -> Seq<(Seq<char>, SettingView)> {
    seq![
        ("bind"@, SettingView::Text(c.bind)),
        ("host_ttl_secs"@, SettingView::Integer(c.host_ttl_secs as i64)),
        ("handshake_timeout_secs"@, SettingView::Integer(c.handshake_timeout_secs as i64)),
        ("shared_secret"@, SettingView::Text(c.shared_secret)),
    ]
}

/// The four keys are bare and different.
proof fn lemma_keys()
    ensures
        settings::is_bare_key("bind"@),
        settings::is_bare_key("host_ttl_secs"@),
        settings::is_bare_key("handshake_timeout_secs"@),
        settings::is_bare_key("shared_secret"@),
        "bind"@ != "host_ttl_secs"@,
        "bind"@ != "handshake_timeout_secs"@,
        "bind"@ != "shared_secret"@,
        "host_ttl_secs"@ != "handshake_timeout_secs"@,
        "host_ttl_secs"@ != "shared_secret"@,
        "handshake_timeout_secs"@ != "shared_secret"@,
{
    reveal_strlit("bind");
    reveal_strlit("host_ttl_secs");
    reveal_strlit("handshake_timeout_secs");
    reveal_strlit("shared_secret");
    assert("host_ttl_secs"@[0] != "shared_secret"@[0]);
}

/// A configuration reads back from its settings.
proof fn lemma_settings_read_back(c: RelayConfigView)
    requires
        in_range(c),
    ensures
        config_of(settings::written_map(settings_of(c))) == Some(c),
{
    lemma_keys();
    let s4 = settings_of(c);
    let s3 = s4.drop_last();
    let s2 = s3.drop_last();
    let s1 = s2.drop_last();
    let s0 = s1.drop_last();
    assert(s0.len() == 0);
    let m0 = Map::<Seq<char>, Option<SettingView>>::empty();
    assert(settings::written_map(s0) == m0);
    let m1 = m0.insert("bind"@, Some(s4[0].1));
    assert(settings::written_map(s1) == m1);
    let m2 = m1.insert("host_ttl_secs"@, Some(s4[1].1));
    assert(settings::written_map(s2) == m2);
    let m3 = m2.insert("handshake_timeout_secs"@, Some(s4[2].1));
    assert(settings::written_map(s3) == m3);
    let m4 = m3.insert("shared_secret"@, Some(s4[3].1));
    assert(settings::written_map(s4) == m4);
}

/// Whether the text has no overlong run of quotation marks.
fn text_quotes_fit(s: &str) -> (r: bool)
    ensures
        r == settings::quotes_fit(s@),
{
    let v = chars_of(s);
    let mut i: usize = 0;
    let mut single: usize = 0;
    let mut double: usize = 0;
    let mut fits: bool = true;
    proof {
        assert(v@.take(0) == Seq::<char>::empty());
    }
    while i < v.len()
        invariant
            v@ == s@,
            i <= v@.len(),
            single <= i,
            double <= i,
            single == settings::run_at_end(v@.take(i as int), '\''),
            double == settings::run_at_end(v@.take(i as int), '"'),
            fits == settings::quotes_fit(v@.take(i as int)),
        decreases v@.len() - i,
    {
        let c: char = v[i];
        if c == '\'' {
            single = single + 1;
        } else {
            single = 0;
        }
        if c == '"' {
            double = double + 1;
        } else {
            double = 0;
        }
        if single > 255 || double > 255 {
            fits = false;
        }
        proof {
            assert(v@.take(i + 1).drop_last() == v@.take(i as int));
            assert(v@.take(i + 1).last() == c);
        }
        i = i + 1;
    }
    proof {
        assert(v@.take(v@.len() as int) == s@);
    }
    fits
}

impl RelayConfig {
    /// Whether neither text has an overlong run of quotation marks, which
    /// could not be written.
    pub fn quotes_fit(&self) -> (r: bool)
        ensures
            r == (settings::quotes_fit(self@.bind) && settings::quotes_fit(self@.shared_secret)),
    {
        text_quotes_fit(self.bind.as_str()) && text_quotes_fit(self.shared_secret.as_str())
    }

    /// The configuration as the text of a TOML file. Loading that file gives
    /// the configuration back.
    pub fn save(&self) -> (r: Result<String, SaveError>)
        requires
            settings::quotes_fit(self@.bind),
            settings::quotes_fit(self@.shared_secret),
        ensures
            r is Ok <==> in_range(self@),
            r is Err ==> r->Err_0 == SaveError::OutOfRange,
            r matches Ok(text) ==> text@ == settings::toml_document(settings_of(self@)),
            r matches Ok(text) ==> loaded(Some(text@)) == self@,
    {
        let limit: u64 = i64::MAX as u64;
        if self.host_ttl_secs > limit || self.handshake_timeout_secs > limit {
            return Err(SaveError::OutOfRange);
        }
        let mut entries: Vec<(String, Setting)> = Vec::new();
        entries.push(("bind".to_owned(), Setting::Text(self.bind.clone())));
        entries.push(("host_ttl_secs".to_owned(), Setting::Integer(self.host_ttl_secs as i64)));
        entries.push(
            (
                "handshake_timeout_secs".to_owned(),
                Setting::Integer(self.handshake_timeout_secs as i64),
            ),
        );
        entries.push(("shared_secret".to_owned(), Setting::Text(self.shared_secret.clone())));
        proof {
            assert(settings::settings_view(entries@) == settings_of(self@));
            lemma_keys();
            lemma_settings_read_back(self@);
        }
        match write_toml(entries) {
            Some(text) => Ok(text),
            None => Err(SaveError::OutOfRange),
        }
    }
}

// ---------------------------------------------------------------------------
// Laws
// ---------------------------------------------------------------------------

/// A configuration is what its fields say.
pub proof fn law_config_view(c: RelayConfig)
    ensures
        c@.bind == c.bind@,
        c@.host_ttl_secs == c.host_ttl_secs,
        c@.handshake_timeout_secs == c.handshake_timeout_secs,
        c@.shared_secret == c.shared_secret@,
{
}

/// Each setting is loaded on its own. Where all that are there are of the right
/// kind, a field has the value under its key if that key is there, and its
/// default if not, whichever other keys are there.
pub proof fn law_each_setting_on_its_own(m: Map<Seq<char>, Option<SettingView>>)
    requires
        m.contains_key("bind"@) ==> (m["bind"@] matches Some(SettingView::Text(_))),
        m.contains_key("shared_secret"@) ==> (m["shared_secret"@] matches Some(
            SettingView::Text(_),
        )),
        m.contains_key("host_ttl_secs"@) ==> (m["host_ttl_secs"@] matches Some(
            SettingView::Integer(n),
        ) && n >= 0),
        m.contains_key("handshake_timeout_secs"@) ==> (m["handshake_timeout_secs"@] matches Some(
            SettingView::Integer(n),
        ) && n >= 0),
    ensures
        config_of(m) is Some,
        ({
            let c = config_of(m)->0;
            &&& m.contains_key("bind"@) ==> m["bind"@] == Some(SettingView::Text(c.bind))
            &&& !m.contains_key("bind"@) ==> c.bind == "0.0.0.0:7800"@
            &&& m.contains_key("host_ttl_secs"@) ==> c.host_ttl_secs
                == m["host_ttl_secs"@]->0->Integer_0
            &&& !m.contains_key("host_ttl_secs"@) ==> c.host_ttl_secs == 600
            &&& m.contains_key("handshake_timeout_secs"@) ==> c.handshake_timeout_secs
                == m["handshake_timeout_secs"@]->0->Integer_0
            &&& !m.contains_key("handshake_timeout_secs"@) ==> c.handshake_timeout_secs == 15
            &&& m.contains_key("shared_secret"@) ==> m["shared_secret"@] == Some(
                SettingView::Text(c.shared_secret),
            )
            &&& !m.contains_key("shared_secret"@) ==> c.shared_secret == Seq::<char>::empty()
        }),
{
    reveal_strlit("");
    assert(""@ == Seq::<char>::empty());
}

/// One setting of the wrong kind, or a negative number of seconds, spoils the
/// whole, whatever the others are.
pub proof fn law_wrong_setting_spoils_all(m: Map<Seq<char>, Option<SettingView>>, key: Seq<char>)
    requires
        m.contains_key(key),
        m[key] matches Some(SettingView::Text(_)) ==> key == "host_ttl_secs"@ || key
            == "handshake_timeout_secs"@,
        m[key] matches Some(SettingView::Integer(n)) ==> key == "bind"@ || key == "shared_secret"@
            || ((key == "host_ttl_secs"@ || key == "handshake_timeout_secs"@) && n < 0),
        m[key] is None ==> key == "bind"@ || key == "shared_secret"@ || key == "host_ttl_secs"@
            || key == "handshake_timeout_secs"@,
    ensures
        config_of(m) is None,
{
    lemma_keys();
}

/// Where there is no file, or its text is no TOML, or one of its settings is of
/// the wrong kind, all fields have their defaults. Else they are those of its
/// settings.
pub proof fn law_loaded(text: Seq<char>)
    ensures
        ({
            let d = loaded(None);
            &&& d.bind == "0.0.0.0:7800"@
            &&& d.host_ttl_secs == 600
            &&& d.handshake_timeout_secs == 15
            &&& d.shared_secret == Seq::<char>::empty()
        }),
        settings::toml_settings(text) is None ==> loaded(Some(text)) == loaded(None),
        settings::toml_settings(text) matches Some(m) ==> config_of(m) is None ==> loaded(
            Some(text),
        ) == loaded(None),
        settings::toml_settings(text) matches Some(m) ==> (config_of(m) matches Some(c) ==> loaded(
            Some(text),
        ) == c),
{
    reveal_strlit("");
    assert(""@ == Seq::<char>::empty());
}

/// The defaults are those of a relay whose file is missing.
pub proof fn law_defaults()
    ensures
        default_config() == loaded(None),
{
}

/// A file holds the four settings in this order, each under its key, and can
/// hold seconds up to the largest integer of TOML.
pub proof fn law_saved_settings(c: RelayConfigView)
    ensures
        in_range(c) <==> c.host_ttl_secs <= 0x7fff_ffff_ffff_ffff && c.handshake_timeout_secs
            <= 0x7fff_ffff_ffff_ffff,
        ({
            let v = settings_of(c);
            &&& v.len() == 4
            &&& v[0] == ("bind"@, SettingView::Text(c.bind))
            &&& v[1].0 == "host_ttl_secs"@
            &&& v[2].0 == "handshake_timeout_secs"@
            &&& v[3] == ("shared_secret"@, SettingView::Text(c.shared_secret))
            &&& v[1].1 is Integer && v[2].1 is Integer
            &&& in_range(c) ==> v[1].1->Integer_0 == c.host_ttl_secs && v[2].1->Integer_0
                == c.handshake_timeout_secs
        }),
{
}

} // verus!
