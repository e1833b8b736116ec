//! Settings written as TOML: the boundary to the `toml` crate.
use vstd::prelude::*;

verus! {

/// The value of one setting.
#[derive(Debug, PartialEq, Eq)]
pub enum Setting {
    Text(String),
    Integer(i64),
}

/// The value of one setting, as mathematical text.
pub enum SettingView {
    Text(Seq<char>),
    Integer(i64),
}

impl View for Setting {
    type V = SettingView;

    open spec fn view(&self) -> SettingView {
        match self {
            Setting::Text(s) => SettingView::Text(s@),
            Setting::Integer(i) => SettingView::Integer(*i),
        }
    }
}

/// A setting of a kind that the relay does not use has no value here.
pub open spec fn value_view(v: Option<Setting>) -> Option<SettingView> {
    match v {
        Some(s) => Some(s@),
        None => None,
    }
}

/// The settings that a list holds. Of two with one key the first counts.
pub open spec fn settings_map(v: Seq<(String, Option<Setting>)>) -> Map<
    Seq<char>,
    Option<SettingView>,
>
    decreases v.len(),
{
    if v.len() == 0 {
        Map::empty()
    } else {
        settings_map(v.drop_first()).insert(v[0].0@, value_view(v[0].1))
    }
}

/// The keys and values of a list, in order.
pub open spec fn settings_view(v: Seq<(String, Setting)>) -> Seq<(Seq<char>, SettingView)> {
    v.map_values(|e: (String, Setting)| (e.0@, e.1@))
}

/// The settings that a list of keys and values stands for.
pub open spec fn written_map(v: Seq<(Seq<char>, SettingView)>) -> Map<
    Seq<char>,
    Option<SettingView>,
>
    decreases v.len(),
{
    if v.len() == 0 {
        Map::empty()
    } else {
        written_map(v.drop_last()).insert(v.last().0, Some(v.last().1))
    }
}

/// A key that TOML writes without quotes.
pub open spec fn is_bare_key(k: Seq<char>) -> bool {
    k.len() > 0 && forall|i: int|
        0 <= i < k.len() ==> {
            let c = #[trigger] k[i];
            'a' <= c <= 'z' || 'A' <= c <= 'Z' || '0' <= c <= '9' || c == '-' || c == '_'
        }
}

/// The length of the run of `q` at the end of `s`.
pub open spec fn run_at_end(s: Seq<char>, q: char) -> nat
    decreases s.len(),
{
    if s.len() > 0 && s.last() == q {
        1 + run_at_end(s.drop_last(), q)
    } else {
        0
    }
}

/// Whether no run of `q` in `s` is longer than 255.
pub open spec fn runs_fit(s: Seq<char>, q: char) -> bool
    decreases s.len(),
{
    s.len() == 0 || (run_at_end(s, q) <= 255 && runs_fit(s.drop_last(), q))
}

/// Whether the text has no run of more than 255 quotation marks of one kind,
/// which is what the `toml` crate counts up to.
pub open spec fn quotes_fit(s: Seq<char>) -> bool {
    runs_fit(s, '\'') && runs_fit(s, '"')
}

/// Whether a list of settings can be written: bare keys, none of them twice,
/// and no overlong run of quotation marks.
pub open spec fn writable(v: Seq<(Seq<char>, SettingView)>) -> bool {
    &&& forall|i: int| 0 <= i < v.len() ==> is_bare_key(#[trigger] v[i].0)
    &&& forall|i: int, j: int|
        0 <= i < v.len() && 0 <= j < v.len() && i != j ==> #[trigger] v[i].0 != #[trigger] v[j].0
    &&& forall|i: int|
        0 <= i < v.len() ==> ((#[trigger] v[i].1) matches SettingView::Text(s) ==> quotes_fit(s))
}

/// The top-level settings of a TOML document, and `None` where the text is no
/// TOML document. A value that is neither a string nor an integer is `None`.
pub uninterp spec fn toml_settings(text: Seq<char>) -> Option<Map<Seq<char>, Option<SettingView>>>;

/// The TOML document that holds these settings, in this order.
pub uninterp spec fn toml_document(settings: Seq<(Seq<char>, SettingView)>) -> Seq<char>;

/// Calls `toml::from_str` for a `serde_json::Map`. With the default features of
/// `serde_json` that type takes every value of a document, so only a text that
/// is no TOML document has no settings. The list holds the settings of the
/// document, each key once.
#[verifier::external_body]
pub(crate) fn parse_toml(text: &str) -> (r: Option<Vec<(String, Option<Setting>)>>)
    ensures
        r is Some <==> toml_settings(text@) is Some,
        r matches Some(v) ==> settings_map(v@) == toml_settings(text@)->0,
{
    let table = toml::from_str::<serde_json::Map<String, serde_json::Value>>(text).ok()?;
    let entries = table.into_iter().map(|(key, value)| match value {
        serde_json::Value::String(s) => (key, Some(Setting::Text(s))),
        serde_json::Value::Number(n) => (key, n.as_i64().map(Setting::Integer)),
        _ => (key, None),
    });
    Some(entries.collect())
}

/// Calls `toml::to_string_pretty` for a `toml::Table`. A table of strings and
/// integers always has a document, and `toml::from_str` reads the same
/// settings back from it.
#[verifier::external_body]
pub(crate) fn write_toml(settings: Vec<(String, Setting)>) -> (r: Option<String>)
    requires
        writable(settings_view(settings@)),
    ensures
        r is Some,
        r->0@ == toml_document(settings_view(settings@)),
        toml_settings(r->0@) == Some(written_map(settings_view(settings@))),
{
    let entries = settings.into_iter().map(|(key, value)| match value {
        Setting::Text(s) => (key, toml::Value::String(s)),
        Setting::Integer(i) => (key, toml::Value::Integer(i)),
    });
    toml::to_string_pretty(&entries.collect::<toml::Table>()).ok()
}

// ---------------------------------------------------------------------------
// Laws
// ---------------------------------------------------------------------------

/// A setting is what its variant says, with the characters of its text.
pub proof fn law_setting_views(s: String, n: i64)
    ensures
        Setting::Text(s)@ == SettingView::Text(s@),
        Setting::Integer(n)@ == SettingView::Integer(n),
        value_view(Some(Setting::Text(s))) == Some(SettingView::Text(s@)),
        value_view(Some(Setting::Integer(n))) == Some(SettingView::Integer(n)),
        value_view(None) == None::<SettingView>,
{
}

/// A key has the value of the first entry under it, and is not there where no
/// entry is under it.
pub proof fn law_first_entry_counts(v: Seq<(String, Option<Setting>)>, key: Seq<char>, i: int)
    requires
        0 <= i <= v.len(),
        forall|j: int| 0 <= j < i ==> (#[trigger] v[j]).0@ != key,
        i < v.len() ==> v[i].0@ == key,
    ensures
        settings_map(v).contains_key(key) <==> i < v.len(),
        i < v.len() ==> settings_map(v)[key] == value_view(v[i].1),
    decreases i,
{
    if v.len() > 0 && i > 0 {
        let less = v.drop_first();
        assert(forall|j: int| 0 <= j < less.len() ==> less[j] == v[j + 1]);
        law_first_entry_counts(less, key, i - 1);
        assert(v[0].0@ != key);
    }
}

/// Every key that is written has its value, and no other key is there.
pub proof fn law_what_is_written(v: Seq<(Seq<char>, SettingView)>, i: int, key: Seq<char>)
    requires
        forall|j: int, k: int|
            0 <= j < v.len() && 0 <= k < v.len() && j != k ==> #[trigger] v[j].0
                != #[trigger] v[k].0,
    ensures
        0 <= i < v.len() ==> written_map(v).contains_key(v[i].0) && written_map(v)[v[i].0] == Some(
            v[i].1,
        ),
        (forall|j: int| 0 <= j < v.len() ==> #[trigger] v[j].0 != key) ==> !written_map(
            v,
        ).contains_key(key),
    decreases v.len(),
{
    if v.len() > 0 {
        let less = v.drop_last();
        assert(forall|j: int| 0 <= j < less.len() ==> less[j] == v[j]);
        law_what_is_written(less, i, key);
        if 0 <= i < less.len() {
            assert(v[i].0 != v[v.len() - 1].0);
        }
        if forall|j: int| 0 <= j < v.len() ==> #[trigger] v[j].0 != key {
            assert(v[v.len() - 1].0 != key);
            assert forall|j: int| 0 <= j < less.len() implies #[trigger] less[j].0 != key by {
                assert(v[j].0 != key);
            }
        }
    }
}

/// The run at the end is the longest one there.
proof fn lemma_run_at_end(s: Seq<char>, q: char)
    ensures
        run_at_end(s, q) <= s.len(),
        forall|j: int| s.len() - run_at_end(s, q) <= j < s.len() ==> #[trigger] s[j] == q,
        run_at_end(s, q) < s.len() ==> s[s.len() - run_at_end(s, q) - 1] != q,
    decreases s.len(),
{
    if s.len() > 0 && s.last() == q {
        let less = s.drop_last();
        lemma_run_at_end(less, q);
        assert forall|j: int| s.len() - run_at_end(s, q) <= j < s.len() implies #[trigger] s[j]
            == q by {
            if j < less.len() {
                assert(s[j] == less[j]);
            }
        }
        if run_at_end(s, q) < s.len() {
            assert(s[s.len() - run_at_end(s, q) - 1] == less[less.len() - run_at_end(less, q)
                - 1]);
        }
    }
}

/// Runs fit exactly where no 256 characters in a row are all `q`.
proof fn lemma_runs_fit(s: Seq<char>, q: char)
    ensures
        runs_fit(s, q) <==> forall|i: int|
            0 <= i && i + 256 <= s.len() ==> (#[trigger] s.subrange(i, i + 256)) != Seq::new(
                256,
                |k: int| q,
            ),
    decreases s.len(),
{
    let long = Seq::new(256, |k: int| q);
    if s.len() > 0 {
        let less = s.drop_last();
        let n = s.len() as int;
        lemma_runs_fit(less, q);
        lemma_run_at_end(s, q);
        assert forall|i: int| 0 <= i && i + 256 <= less.len() implies #[trigger] less.subrange(
            i,
            i + 256,
        ) == s.subrange(i, i + 256) by {}
        if run_at_end(s, q) > 255 {
            assert(s.subrange(n - 256, n) == long);
            assert(s.subrange(n - 256, n - 256 + 256) == long);
        } else {
            if n >= 256 {
                let at = n - run_at_end(s, q) - 1;
                assert(s.subrange(n - 256, n)[at - (n - 256)] == s[at]);
                assert(s.subrange(n - 256, n) != long);
            }
            if runs_fit(less, q) {
                assert forall|i: int| 0 <= i && i + 256 <= s.len() implies (#[trigger] s.subrange(
                    i,
                    i + 256,
                )) != long by {
                    if i + 256 <= less.len() {
                        assert(less.subrange(i, i + 256) != long);
                    }
                }
            } else {
                let i = choose|i: int|
                    0 <= i && i + 256 <= less.len() && (#[trigger] less.subrange(i, i + 256))
                        == long;
                assert(s.subrange(i, i + 256) == long);
            }
        }
    }
}

/// A text can be written exactly where it has no 256 quotation marks of one
/// kind in a row.
pub proof fn law_quotes_fit(s: Seq<char>)
    ensures
        quotes_fit(s) <==> forall|i: int|
            0 <= i && i + 256 <= s.len() ==> {
                &&& (#[trigger] s.subrange(i, i + 256)) != Seq::new(256, |k: int| '\'')
                &&& s.subrange(i, i + 256) != Seq::new(256, |k: int| '"')
            },
{
    lemma_runs_fit(s, '\'');
    lemma_runs_fit(s, '"');
}

/// What can be written: keys of letters, digits, `-` and `_`, none of them
/// twice, and texts whose quotation marks fit. A list holds what its entries
/// say, in their order.
pub proof fn law_what_can_be_written(
    v: Seq<(Seq<char>, SettingView)>,
    list: Seq<(String, Setting)>,
    i: int,
    j: int,
)
    requires
        0 <= i < v.len(),
        0 <= j < v[i].0.len(),
    ensures
        writable(v) ==> {
            ||| 'a' <= v[i].0[j] <= 'z'
            ||| 'A' <= v[i].0[j] <= 'Z'
            ||| '0' <= v[i].0[j] <= '9'
            ||| v[i].0[j] == '-'
            ||| v[i].0[j] == '_'
        },
        writable(v) ==> v.map_values(|e: (Seq<char>, SettingView)| e.0).no_duplicates(),
        writable(v) && v[i].1 is Text ==> quotes_fit(v[i].1->Text_0),
        settings_view(list).len() == list.len(),
        i < list.len() ==> settings_view(list)[i] == (list[i].0@, list[i].1@),
{
    if writable(v) {
        assert(is_bare_key(v[i].0));
        let keys = v.map_values(|e: (Seq<char>, SettingView)| e.0);
        assert forall|a: int, b: int| 0 <= a < keys.len() && 0 <= b < keys.len() && a != b implies
            keys[a] != keys[b] by {
            assert(v[a].0 != v[b].0);
        }
    }
}

} // verus!
