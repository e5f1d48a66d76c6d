//! The provider catalog of models.dev: what a model entry says about the
//! model, which providers are usable, and looking a provider up.
//!
//! Fetching the catalog, caching it, reading the environment and the
//! models' prices (floating point) are the caller's.

use vstd::prelude::*;
use crate::text::lit;
use crate::text::{
    append_chars, append_str, chars_eq_str, chars_of, find_chars_from, find_from, str_eq, string_from_chars, strings_view,
};
use crate::store::{compare_keys, lex_lt, lemma_lex_transitive, KeyOrder};

verus! {

/// Token limits of a model.
#[derive(Debug, Clone, Copy, PartialEq, Eq)]
pub struct ModelLimit {
    pub context: Option<u32>,
    pub input: Option<u32>,
    pub output: Option<u32>,
}

/// What a model takes in and gives out (`text`, `image`, `audio`, ...).
#[derive(Debug, Clone)]
pub struct ModelModalities {
    pub input: Vec<String>,
    pub output: Vec<String>,
}

/// A model of a provider, as models.dev lists it (prices aside).
#[derive(Debug, Clone)]
pub struct ModelEntry {
    pub id: String,
    pub name: String,
    pub description: Option<String>,
    pub reasoning: bool,
    pub tool_call: bool,
    pub structured_output: Option<bool>,
    pub temperature: bool,
    pub limit: Option<ModelLimit>,
    pub modalities: Option<ModelModalities>,
    pub open_weights: Option<bool>,
}

/// A model as the router uses it (prices aside).
#[derive(Debug, Clone)]
pub struct ModelProfile {
    pub id: String,
    pub provider: String,
    pub model_name: String,
    pub context_window: u32,
    pub max_output_tokens: u32,
    pub suitable_for: Vec<String>,
}

/// Why the catalog could not be had.
#[derive(Debug, Clone, PartialEq, Eq)]
pub enum ModelsDevError {
    Http(String),
    Parse(String),
}

impl ModelsDevError {
    /// The error's text.
    pub fn message(&self) -> (s: String)
        ensures
            s@ == match self {
                ModelsDevError::Http(e) => "HTTP error fetching models.dev: "@ + e@,
                ModelsDevError::Parse(e) => "Parse error reading models.dev data: "@ + e@,
            },
    {
        match self {
            ModelsDevError::Http(e) => {
                let mut s = String::from_str("HTTP error fetching models.dev: ");
                s.append(e.as_str());
                s
            },
            ModelsDevError::Parse(e) => {
                let mut s = String::from_str("Parse error reading models.dev data: ");
                s.append(e.as_str());
                s
            },
        }
    }
}

/// The tags a model is suitable for: `general` always, then `reasoning`,
/// `coding` (tool calls), `vision` (image in or out), `video` (video out),
/// `audio` (audio in or out) and `open` (open weights), in that order.
pub open spec fn suitability_tags(e: ModelEntry) -> Seq<Seq<char>> {
    let mods = e.modalities;
    let inp = match mods {
        Some(m) => strings_view(m.input@),
        None => Seq::<Seq<char>>::empty(),
    };
    let out = match mods {
        Some(m) => strings_view(m.output@),
        None => Seq::<Seq<char>>::empty(),
    };
    seq!["general"@] + (if e.reasoning { seq!["reasoning"@] } else { Seq::empty() }) + (if e.tool_call {
        seq!["coding"@]
    } else {
        Seq::empty()
    }) + (if mods is Some && (inp.contains("image"@) || out.contains("image"@)) {
        seq!["vision"@]
    } else {
        Seq::empty()
    }) + (if mods is Some && out.contains("video"@) {
        seq!["video"@]
    } else {
        Seq::empty()
    }) + (if mods is Some && (out.contains("audio"@) || inp.contains("audio"@)) {
        seq!["audio"@]
    } else {
        Seq::empty()
    }) + (if e.open_weights == Some(true) {
        seq!["open"@]
    } else {
        Seq::empty()
    })
}

fn list_contains(list: &Vec<String>, m: &str) -> (b: bool)
    ensures
        b == strings_view(list@).contains(m@),
{
    let mut i: usize = 0;
    while i < list.len()
        invariant
            i <= list@.len(),
            forall|j: int| 0 <= j < i ==> list@[j]@ != m@,
        decreases list.len() - i,
    {
        if str_eq(list[i].as_str(), m) {
            assert(strings_view(list@)[i as int] == m@);
            return true;
        }
        i = i + 1;
    }
    assert forall|j: int| 0 <= j < strings_view(list@).len() implies strings_view(list@)[j] != m@ by {}
    false
}

/// Converts a models.dev model entry for `provider_id` into a profile: the
/// context window defaults to 128000 tokens and the output limit to 8192.
pub fn convert_model(provider_id: &str, entry: &ModelEntry) -> (p: ModelProfile)
    ensures
        p.id@ == entry.id@,
        p.provider@ == provider_id@,
        p.model_name@ == entry.name@,
        p.context_window == match entry.limit {
            Some(l) => match l.context {
                Some(c) => c,
                None => 128_000u32,
            },
            None => 128_000u32,
        },
        p.max_output_tokens == match entry.limit {
            Some(l) => match l.output {
                Some(c) => c,
                None => 8_192u32,
            },
            None => 8_192u32,
        },
        strings_view(p.suitable_for@) == suitability_tags(*entry),
{
    let context: u32 = match &entry.limit {
        Some(l) => match l.context {
            Some(c) => c,
            None => 128_000,
        },
        None => 128_000,
    };
    let max_output: u32 = match &entry.limit {
        Some(l) => match l.output {
            Some(c) => c,
            None => 8_192,
        },
        None => 8_192,
    };
    let mut tags: Vec<String> = Vec::new();
    tags.push(lit("general"));
    if entry.reasoning {
        tags.push(lit("reasoning"));
    }
    if entry.tool_call {
        tags.push(lit("coding"));
    }
    match &entry.modalities {
        Some(m) => {
            if list_contains(&m.input, "image") || list_contains(&m.output, "image") {
                tags.push(lit("vision"));
            }
            if list_contains(&m.output, "video") {
                tags.push(lit("video"));
            }
            if list_contains(&m.output, "audio") || list_contains(&m.input, "audio") {
                tags.push(lit("audio"));
            }
        },
        None => {},
    }
    if entry.open_weights == Some(true) {
        tags.push(lit("open"));
    }
    assert(strings_view(tags@) =~= suitability_tags(*entry));
    ModelProfile {
        id: entry.id.clone(),
        provider: lit(provider_id),
        model_name: entry.name.clone(),
        context_window: context,
        max_output_tokens: max_output,
        suitable_for: tags,
    }
}

/// A descriptor for creating an OpenAI-compatible provider.
#[derive(Debug, Clone)]
pub struct ProviderConfig {
    pub name: String,
    pub base_url: String,
    pub api_key_env: String,
    pub notes: String,
    pub models: Vec<ModelProfile>,
}

/// A provider as models.dev lists it, with its models converted.
pub struct ProviderEntry {
    pub name: String,
    pub env: Vec<String>,
    pub api: Option<String>,
    pub doc: Option<String>,
    pub models: Vec<ModelProfile>,
}

pub open spec fn has_template(s: Seq<char>) -> bool {
    exists|i: int| 0 <= i && i + 1 < s.len() && s[i] == '$' && #[trigger] s[i + 1] == '{'
}

fn contains_template(s: &str) -> (b: bool)
    ensures
        b == has_template(s@),
{
    let c = chars_of(s);
    let n: usize = c.len();
    if n < 2 {
        return false;
    }
    let mut i: usize = 0;
    while i <= n - 2
        invariant
            c@ == s@,
            n == c@.len(),
            n >= 2,
            forall|j: int| 0 <= j < i && j + 1 < c@.len() ==> !(c@[j] == '$' && #[trigger] c@[j + 1] == '{'),
        decreases c.len() - i,
    {
        if c[i] == '$' && c[i + 1] == '{' {
            return true;
        }
        i = i + 1;
    }
    false
}

/// Whether a provider is usable: it has an OpenAI-compatible endpoint whose
/// resolved URL holds no unresolved `${..}`, and at least one model.
pub open spec fn usable(e: ProviderEntry, resolved_url: Seq<char>) -> bool {
    e.api is Some && !has_template(resolved_url) && e.models@.len() > 0
}

/// The configuration of a usable provider `provider_id` whose endpoint
/// resolved to `resolved_url`: the key variable is its first `env` entry
/// (default `API_KEY`) and the notes its documentation link, else its name.
pub fn provider_config(provider_id: &str, entry: ProviderEntry, resolved_url: &str) -> (r: Option<ProviderConfig>)
    ensures
        r is Some <==> usable(entry, resolved_url@),
        r matches Some(c) ==> {
            &&& c.name@ == provider_id@
            &&& c.base_url@ == resolved_url@
            &&& c.api_key_env@ == (if entry.env@.len() > 0 {
                entry.env@[0]@
            } else {
                "API_KEY"@
            })
            &&& c.notes@ == match entry.doc {
                Some(d) => d@,
                None => entry.name@,
            }
            &&& c.models@ == entry.models@
        },
{
    if entry.api.is_none() {
        return None;
    }
    if contains_template(resolved_url) {
        return None;
    }
    if entry.models.len() == 0 {
        return None;
    }
    let key = if entry.env.len() > 0 {
        entry.env[0].clone()
    } else {
        lit("API_KEY")
    };
    let notes = match entry.doc {
        Some(d) => d,
        None => entry.name,
    };
    Some(ProviderConfig { name: lit(provider_id), base_url: lit(resolved_url), api_key_env: key, notes, models: entry.models })
}

pub open spec fn sorted_by_name(s: Seq<ProviderConfig>) -> bool {
    forall|i: int, j: int| 0 <= i < j < s.len() ==> !lex_lt(s[j].name@, s[i].name@)
}

/// Sorts providers by name (stable), for a deterministic catalog order.
pub fn sort_by_name(configs: Vec<ProviderConfig>) -> (r: Vec<ProviderConfig>)
    ensures
        sorted_by_name(r@),
        r@.to_multiset() == configs@.to_multiset(),
{
    broadcast use vstd::seq_lib::group_to_multiset_ensures, vstd::multiset::group_multiset_axioms;

    let ghost orig = configs@;
    let mut rest = configs;
    let mut out: Vec<ProviderConfig> = Vec::new();
    assert(out@ =~= Seq::<ProviderConfig>::empty());
    while rest.len() > 0
        invariant
            sorted_by_name(out@),
            out@.to_multiset().add(rest@.to_multiset()) == orig.to_multiset(),
        decreases rest.len(),
    {
        let ghost before_rest = rest@;
        let x = rest.pop().unwrap();
        assert(before_rest =~= rest@.push(x));
        let xc = chars_of(x.name.as_str());
        let mut pos: usize = 0;
        let mut stop: bool = false;
        while pos < out.len() && !stop
            invariant
                pos <= out@.len(),
                xc@ == x.name@,
                forall|j: int| 0 <= j < pos ==> lex_lt(#[trigger] out@[j].name@, x.name@),
                stop ==> pos < out@.len() && !lex_lt(out@[pos as int].name@, x.name@),
            decreases out.len() - pos + (if stop { 0int } else { 1int }),
        {
            let cur = chars_of(out[pos].name.as_str());
            match compare_keys(&cur, &xc) {
                KeyOrder::Less => {
                    pos = pos + 1;
                },
                _ => {
                    stop = true;
                },
            }
        }
        let ghost before_out = out@;
        out.insert(pos, x);
        proof {
            assert forall|i: int, j: int| 0 <= i < j < out@.len() implies !lex_lt(out@[j].name@, out@[i].name@) by {
                if j < pos {
                    assert(out@[i] == before_out[i] && out@[j] == before_out[j]);
                } else if j == pos {
                    assert(out@[i] == before_out[i]);
                    crate::store::lemma_lex_asymmetric(before_out[i].name@, x.name@);
                } else if i < pos {
                    assert(out@[i] == before_out[i] && out@[j] == before_out[j - 1]);
                } else if i == pos {
                    assert(out@[j] == before_out[j - 1]);
                    assert(stop);
                    if j - 1 > pos {
                        assert(!lex_lt(before_out[j - 1].name@, before_out[pos as int].name@));
                        crate::store::lemma_lex_le_transitive(x.name@, before_out[pos as int].name@, before_out[j - 1].name@);
                    }
                } else {
                    assert(out@[i] == before_out[i - 1] && out@[j] == before_out[j - 1]);
                }
            }
            vstd::seq_lib::to_multiset_insert(before_out, pos as int, x);
            vstd::seq_lib::to_multiset_build(rest@, x);
            assert(out@.to_multiset().add(rest@.to_multiset()) =~= before_out.to_multiset().add(before_rest.to_multiset()));
        }
    }
    assert(rest@ =~= Seq::<ProviderConfig>::empty());
    assert(out@.to_multiset().add(rest@.to_multiset()) =~= out@.to_multiset());
    out
}

/// The first provider with this name, if any.
pub fn get_provider_slot(configs: &[ProviderConfig], name: &str) -> (r: Option<usize>)
    ensures
        match r {
            Some(i) => i < configs@.len() && configs@[i as int].name@ == name@ && forall|j: int|
                0 <= j < i ==> (#[trigger] configs@[j]).name@ != name@,
            None => forall|j: int| 0 <= j < configs@.len() ==> (#[trigger] configs@[j]).name@ != name@,
        },
{
    let mut i: usize = 0;
    while i < configs.len()
        invariant
            i <= configs@.len(),
            forall|j: int| 0 <= j < i ==> (#[trigger] configs@[j]).name@ != name@,
        decreases configs.len() - i,
    {
        if str_eq(configs[i].name.as_str(), name) {
            return Some(i);
        }
        i = i + 1;
    }
    None
}

/// Every provider of the catalog, in catalog order.
pub fn provider_configs(configs: &Vec<ProviderConfig>) -> (r: &Vec<ProviderConfig>)
    ensures
        r == configs,
{
    configs
}

/// Finds the first `${NAME}` template in a URL: the positions (in chars)
/// of its `$` and of the `}` that closes it. `None` when there is no `${`,
/// or no `}` after the first one.
pub fn find_template(url: &str) -> (r: Option<(usize, usize)>)
    ensures
        match r {
            Some((a, b)) => {
                &&& a + 2 <= b < url@.len()
                &&& url@[a as int] == '$' && url@[a + 1] == '{'
                &&& forall|k: int| 0 <= k < a ==> !(url@[k] == '$' && #[trigger] url@[k + 1] == '{')
                &&& url@[b as int] == '}'
                &&& forall|k: int| a + 2 <= k < b ==> #[trigger] url@[k] != '}'
            },
            None => forall|a: int|
                0 <= a && a + 1 < url@.len() && url@[a] == '$' && #[trigger] url@[a + 1] == '{' ==> exists|k: int|
                    0 <= k < a && url@[k] == '$' && #[trigger] url@[k + 1] == '{' || forall|j: int|
                        a + 2 <= j < url@.len() ==> #[trigger] url@[j] != '}',
        },
{
    let c = chars_of(url);
    let n: usize = c.len();
    if n < 2 {
        return None;
    }
    let mut i: usize = 0;
    while i <= n - 2
        invariant
            c@ == url@,
            n == c@.len(),
            n >= 2,
            forall|k: int| 0 <= k < i && k + 1 < n ==> !(c@[k] == '$' && #[trigger] c@[k + 1] == '{'),
        decreases n - i,
    {
        if c[i] == '$' && c[i + 1] == '{' {
            let mut j: usize = i + 2;
            while j < n
                invariant
                    c@ == url@,
                    n == c@.len(),
                    n >= 2,
                    i <= n - 2,
                    c@[i as int] == '$' && c@[i + 1] == '{',
                    forall|k: int| 0 <= k < i && k + 1 < n ==> !(c@[k] == '$' && #[trigger] c@[k + 1] == '{'),
                    i + 2 <= j <= n,
                    forall|k: int| i + 2 <= k < j ==> #[trigger] c@[k] != '}',
                decreases n - j,
            {
                if c[j] == '}' {
                    proof {
                        assert forall|k: int| 0 <= k < i implies !(url@[k] == '$' && #[trigger] url@[k + 1] == '{') by {
                            assert(!(c@[k] == '$' && c@[k + 1] == '{'));
                        }
                    }
                    return Some((i, j));
                }
                j = j + 1;
            }
            proof {
                assert forall|a: int|
                    0 <= a && a + 1 < url@.len() && url@[a] == '$' && #[trigger] url@[a + 1] == '{' implies exists|k: int|
                        0 <= k < a && url@[k] == '$' && #[trigger] url@[k + 1] == '{' || forall|j2: int|
                            a + 2 <= j2 < url@.len() ==> #[trigger] url@[j2] != '}' by {
                    if a > i {
                        assert(url@[i as int] == '$' && url@[i + 1] == '{');
                    } else if a < i {
                        assert(!(c@[a] == '$' && c@[a + 1] == '{'));
                    }
                }
            }
            return None;
        }
        i = i + 1;
    }
    None
}

/// `url` with the chars from `a` to `b` (inclusive) replaced by `value`.
pub fn substitute_template(url: &str, a: usize, b: usize, value: &str) -> (s: String)
    requires
        a <= b < url@.len(),
    ensures
        s@ == url@.subrange(0, a as int) + value@ + url@.subrange(b + 1, url@.len() as int),
{
    let c = chars_of(url);
    let mut v: Vec<char> = Vec::new();
    let mut i: usize = 0;
    while i < a
        invariant
            c@ == url@,
            a <= b < c@.len(),
            i <= a,
            v@ == c@.subrange(0, i as int),
        decreases a - i,
    {
        v.push(c[i]);
        i = i + 1;
        assert(v@ =~= c@.subrange(0, i as int));
    }
    crate::text::append_str(&mut v, value);
    let ghost mid = v@;
    let n: usize = c.len();
    assert(b < n);
    let mut j: usize = b + 1;
    while j < c.len()
        invariant
            c@ == url@,
            b + 1 <= j <= c@.len(),
            v@ == mid + c@.subrange(b + 1, j as int),
        decreases c.len() - j,
    {
        v.push(c[j]);
        j = j + 1;
        assert(v@ =~= mid + c@.subrange(b + 1, j as int));
    }
    string_from_chars(&v)
}

/// The chars from `a` to `b` (exclusive): a template's variable name.
pub fn template_name(url: &str, a: usize, b: usize) -> (s: String)
    requires
        a <= b <= url@.len(),
    ensures
        s@ == url@.subrange(a as int, b as int),
{
    let c = chars_of(url);
    let mut v: Vec<char> = Vec::new();
    let mut i: usize = a;
    while i < b
        invariant
            c@ == url@,
            a <= i <= b <= c@.len(),
            v@ == c@.subrange(a as int, i as int),
        decreases b - i,
    {
        v.push(c[i]);
        i = i + 1;
        assert(v@ =~= c@.subrange(a as int, i as int));
    }
    string_from_chars(&v)
}

/// The first `${NAME}` template at or after char `from`: the positions of
/// its `$` and of the first `}` after its `${` (none if there is no `${`
/// there, or no `}` after it).
pub open spec fn template_at(url: Seq<char>, from: nat) -> Option<(nat, nat)> {
    match find_from(url, "${"@, from) {
        None => None,
        Some(a) => match find_from(url, "}"@, a + 2) {
            None => None,
            Some(b) => Some((a, b)),
        },
    }
}

/// Finds the first template at or after `from`.
pub fn find_template_from(url: &str, from: usize) -> (r: Option<(usize, usize)>)
    ensures
        match r {
            Some((a, b)) => template_at(url@, from as nat) == Some((a as nat, b as nat)) && a + 2 <= b < url@.len(),
            None => template_at(url@, from as nat) is None,
        },
{
    let c = chars_of(url);
    let open = chars_of("${");
    let close = chars_of("}");
    proof {
        reveal_strlit("${");
        reveal_strlit("}");
    }
    assert(open@.len() == 2);
    let n: usize = c.len();
    match find_chars_from(&c, &open, from) {
        None => None,
        Some(a) => match find_chars_from(&c, &close, a + 2) {
            None => None,
            Some(b) => Some((a, b)),
        },
    }
}

/// One step of filling templates: the template whose `$` is at `a` and whose
/// `}` is at `b` gets `value`, or, when its variable is not set (`None`),
/// stays as it is; the scan goes on after what was put there.
pub fn resolve_step(url: &str, a: usize, b: usize, value: Option<&str>) -> (r: (String, usize))
    requires
        a <= b < url@.len(),
    ensures
        match value {
            Some(v) => r.0@ == url@.subrange(0, a as int) + v@ + url@.subrange(b + 1, url@.len() as int) && r.1 == a
                + v@.len(),
            None => r.0@ == url@ && r.1 == b + 1,
        },
{
    let c = chars_of(url);
    let n: usize = c.len();
    assert(n == url@.len());
    match value {
        None => (lit(url), b + 1),
        Some(v) => {
            let vc = chars_of(v);
            let mut out = crate::cron::slice_prefix(c.as_slice(), a);
            append_chars(&mut out, vc.as_slice());
            let next = out.len();
            let rest = crate::cron::slice_suffix(c.as_slice(), b + 1);
            append_chars(&mut out, rest.as_slice());
            assert(out@ =~= url@.subrange(0, a as int) + v@ + url@.subrange(b + 1, url@.len() as int));
            (string_from_chars(&out), next)
        },
    }
}

/// A configuration seen as plain values: name, endpoint, key variable,
/// notes, models.
pub open spec fn config_view(c: ProviderConfig) -> (Seq<char>, Seq<char>, Seq<char>, Seq<char>, Seq<ModelProfile>) {
    (c.name@, c.base_url@, c.api_key_env@, c.notes@, c.models@)
}

/// The configuration `provider_config` makes of a usable provider.
pub open spec fn expected_config(id: Seq<char>, e: ProviderEntry, url: Seq<char>) -> (
    Seq<char>,
    Seq<char>,
    Seq<char>,
    Seq<char>,
    Seq<ModelProfile>,
) {
    (
        id,
        url,
        if e.env@.len() > 0 {
            e.env@[0]@
        } else {
            "API_KEY"@
        },
        match e.doc {
            Some(d) => d@,
            None => e.name@,
        },
        e.models@,
    )
}

/// The configurations of the usable providers among `ps` (id, entry,
/// resolved endpoint), in order.
pub open spec fn usable_configs(ps: Seq<(String, ProviderEntry, String)>) -> Seq<
    (Seq<char>, Seq<char>, Seq<char>, Seq<char>, Seq<ModelProfile>),
>
    decreases ps.len(),
{
    if ps.len() == 0 {
        Seq::empty()
    } else {
        let p = ps.last();
        usable_configs(ps.drop_last()) + if usable(p.1, p.2@) {
            seq![expected_config(p.0@, p.1, p.2@)]
        } else {
            Seq::empty()
        }
    }
}

/// The OpenAI-compatible providers of a catalog, given as (id, entry,
/// endpoint with its templates filled): those with an endpoint, no unfilled
/// template left in it, and at least one model, sorted by name.
pub fn convert_to_configs(providers: Vec<(String, ProviderEntry, String)>) -> (r: Vec<ProviderConfig>)
    ensures
        sorted_by_name(r@),
        r@.map_values(|c: ProviderConfig| config_view(c)).to_multiset() == usable_configs(providers@).to_multiset(),
{
    broadcast use vstd::seq_lib::group_to_multiset_ensures, vstd::multiset::group_multiset_axioms;

    let ghost ps = providers@;
    let mut configs: Vec<ProviderConfig> = Vec::new();
    let mut rest = providers;
    let mut i: usize = 0;
    let n = rest.len();
    let ghost f = |c: ProviderConfig| config_view(c);
    while rest.len() > 0
        invariant
            ps.len() == n,
            i + rest@.len() == n,
            rest@ == ps.skip(i as int),
            f == (|c: ProviderConfig| config_view(c)),
            configs@.map_values(f) == usable_configs(ps.take(i as int)),
        decreases rest.len(),
    {
        let (id, entry, url) = rest.remove(0);
        let ghost p = ps[i as int];
        assert(p == (id, entry, url));
        proof {
            assert(ps.take(i + 1).drop_last() =~= ps.take(i as int));
            assert(ps.take(i + 1).last() == p);
        }
        let ghost before = configs@;
        match provider_config(id.as_str(), entry, url.as_str()) {
            Some(c) => {
                configs.push(c);
                assert(configs@.map_values(f) =~= before.map_values(f).push(expected_config(p.0@, p.1, p.2@)));
            },
            None => {
                assert(configs@.map_values(f) =~= before.map_values(f));
            },
        }
        i = i + 1;
        assert(rest@ =~= ps.skip(i as int));
    }
    assert(ps.take(n as int) =~= ps);
    let ghost unsorted = configs@;
    let r = sort_by_name(configs);
    proof {
        lemma_map_multiset(r@, unsorted, f);
    }
    r
}

/// Two sequences with the same items, mapped alike, have the same items.
proof fn lemma_map_multiset<A, B>(s: Seq<A>, t: Seq<A>, f: spec_fn(A) -> B)
    requires
        s.to_multiset() == t.to_multiset(),
    ensures
        s.map_values(f).to_multiset() == t.map_values(f).to_multiset(),
    decreases s.len(),
{
    broadcast use vstd::seq_lib::group_to_multiset_ensures, vstd::multiset::group_multiset_axioms;

    if s.len() == 0 {
        assert(t.to_multiset().len() == 0);
        assert(t.len() == 0);
        assert(s.map_values(f) =~= Seq::<B>::empty());
        assert(t.map_values(f) =~= Seq::<B>::empty());
    } else {
        let x = s.last();
        let s1 = s.drop_last();
        assert(s =~= s1.push(x));
        assert(s.contains(x)) by {
            assert(s[s.len() - 1] == x);
        }
        assert(t.to_multiset().count(x) > 0);
        let j = choose|j: int| 0 <= j < t.len() && t[j] == x;
        let t2 = t.remove(j);
        assert(t2.to_multiset() =~= s1.to_multiset()) by {
            assert(t2.to_multiset() == t.to_multiset().remove(t[j]));
            assert(s.to_multiset() == s1.to_multiset().insert(x));
        }
        lemma_map_multiset(s1, t2, f);
        let tm = t.map_values(f);
        assert(tm.remove(j) =~= t2.map_values(f));
        assert(tm.remove(j).to_multiset() == tm.to_multiset().remove(tm[j]));
        assert(tm.contains(f(x))) by {
            assert(tm[j] == f(x));
        }
        assert(s.map_values(f) =~= s1.map_values(f).push(f(x)));
        assert(s.map_values(f).to_multiset() =~= s1.map_values(f).to_multiset().insert(f(x)));
        assert(tm.to_multiset().count(f(x)) > 0);
        assert(tm.to_multiset() =~= tm.to_multiset().remove(f(x)).insert(f(x)));
    }
}

} // verus!
