//! What the store reads and writes, as plain records, and the decisions made
//! on what it returns.
use vstd::prelude::*;
use crate::config::digit;
use crate::json::str_eq;

verus! {

/// A session as the store keeps it: its id and the summary of its earlier
/// turns, if one was written.
pub struct SessionRow {
    pub id: i32,
    pub summary: Option<String>,
}

/// A message as the store keeps it.
pub struct StoredMessage {
    pub id: i32,
    pub session_id: i32,
    pub role: String,
    pub content: String,
}

/// The newest `limit` of `newest_first`, oldest first.
pub open spec fn recent(newest_first: Seq<StoredMessage>, limit: u64) -> Seq<StoredMessage> {
    newest_first.take(if limit < newest_first.len() { limit as int } else { newest_first.len() as int }).reverse()
}

/// The `limit` most recent messages in the order they were written, given
/// the session's messages newest first.
pub fn recent_messages(newest_first: Vec<StoredMessage>, limit: u64) -> (r: Vec<StoredMessage>)
    ensures
        r@ == recent(newest_first@, limit),
{
    let n: usize = if (limit as u128) < (newest_first.len() as u128) { limit as usize } else { newest_first.len() };
    let ghost kept = newest_first@.take(n as int);
    let mut src = newest_first;
    src.truncate(n);
    assert(src@ == kept);
    let mut r: Vec<StoredMessage> = Vec::new();
    while src.len() > 0
        invariant
            src@ + r@.reverse() == kept,
        decreases src.len(),
    {
        let ghost before = src@;
        let m = src.pop().unwrap();
        r.push(m);
        assert(before =~= src@.push(m));
        assert(r@.reverse() =~= seq![m] + r@.drop_last().reverse());
        assert(src@ + r@.reverse() =~= before + r@.drop_last().reverse());
    }
    assert(r@.reverse() =~= kept);
    assert(r@ =~= kept.reverse());
    r
}

/// Of the same messages newest first, a smaller limit keeps a tail of what a
/// larger one keeps; limit 0 keeps nothing; and with a limit of at least 1 the
/// newest message comes last.
pub proof fn lemma_recent_limits(newest_first: Seq<StoredMessage>, n: u64, k: u64)
    requires
        n <= k,
    ensures
        ({
            let a = recent(newest_first, n);
            let b = recent(newest_first, k);
            &&& a.len() <= b.len()
            &&& a == b.subrange(b.len() - a.len(), b.len() as int)
        }),
        recent(newest_first, 0) == Seq::<StoredMessage>::empty(),
        n >= 1 && newest_first.len() >= 1 ==> recent(newest_first, n).last() == newest_first[0],
{
    let a = recent(newest_first, n);
    let b = recent(newest_first, k);
    assert(a =~= b.subrange(b.len() - a.len(), b.len() as int));
    assert(recent(newest_first, 0) =~= Seq::<StoredMessage>::empty());
}

/// Whether the store holds any user, given how many users it holds.
pub fn has_any_user(count: u64) -> (r: bool)
    ensures
        r == (count != 0),
{
    count != 0
}

/// A provider of models, as the store keeps it.
pub struct ProviderRow {
    pub id: i32,
    pub name: String,
    pub provider_type: String,
    pub base_url: String,
    pub api_key: String,
    pub is_active: bool,
}

/// One chat model that a provider offers, as the store keeps it. The
/// sampling temperature is kept as the bits of its IEEE-754 single-precision
/// value.
pub struct LlmRow {
    pub id: i32,
    pub provider_id: i32,
    pub model_name: String,
    pub max_tokens: i32,
    pub temperature_bits: u32,
}

/// A provider together with its chat models.
pub struct ProviderModels {
    pub provider: ProviderRow,
    pub models: Vec<LlmRow>,
}

/// What it takes to talk to one chat model. The temperature is kept as the
/// bits of its IEEE-754 single-precision value.
pub struct LlmConfig {
    pub name: String,
    pub base_url: String,
    pub api_key: String,
    pub model: String,
    pub max_tokens: i32,
    pub temperature_bits: u32,
}

pub struct LlmConfigView {
    pub name: Seq<char>,
    pub base_url: Seq<char>,
    pub api_key: Seq<char>,
    pub model: Seq<char>,
    pub max_tokens: i32,
    pub temperature_bits: u32,
}

impl View for LlmConfig {
    type V = LlmConfigView;

    open spec fn view(&self) -> LlmConfigView {
        LlmConfigView {
            name: self.name@,
            base_url: self.base_url@,
            api_key: self.api_key@,
            model: self.model@,
            max_tokens: self.max_tokens,
            temperature_bits: self.temperature_bits,
        }
    }
}

/// A provider whose models are chat models and which is switched on.
pub open spec fn is_active_llm(p: ProviderRow) -> bool {
    p.provider_type@ == "llm"@ && p.is_active
}

/// The configuration for a provider's model.
pub open spec fn config_of(p: ProviderRow, m: LlmRow) -> LlmConfigView {
    LlmConfigView {
        name: p.name@,
        base_url: p.base_url@,
        api_key: p.api_key@,
        model: m.model_name@,
        max_tokens: m.max_tokens,
        temperature_bits: m.temperature_bits,
    }
}

/// `configs` after entering each model of `p` in turn under the provider's
/// name, a later entry replacing an earlier one.
pub open spec fn enter_models(configs: Map<Seq<char>, LlmConfigView>, p: ProviderRow, models: Seq<LlmRow>) -> Map<Seq<char>, LlmConfigView>
    decreases models.len(),
{
    if models.len() == 0 {
        configs
    } else {
        enter_models(configs.insert(p.name@, config_of(p, models[0])), p, models.drop_first())
    }
}

/// `configs` after entering the models of each active chat-model provider
/// of `rows`, in order.
pub open spec fn enter_providers(configs: Map<Seq<char>, LlmConfigView>, rows: Seq<ProviderModels>) -> Map<Seq<char>, LlmConfigView>
    decreases rows.len(),
{
    if rows.len() == 0 {
        configs
    } else {
        let next = if is_active_llm(rows[0].provider) {
            enter_models(configs, rows[0].provider, rows[0].models@)
        } else {
            configs
        };
        enter_providers(next, rows.drop_first())
    }
}

/// The configurations, keyed by name.
pub open spec fn configs_map(v: Seq<LlmConfig>) -> Map<Seq<char>, LlmConfigView>
    decreases v.len(),
{
    if v.len() == 0 {
        Map::empty()
    } else {
        configs_map(v.drop_last()).insert(v.last().name@, v.last()@)
    }
}

/// No two configurations share a name.
pub open spec fn names_unique(v: Seq<LlmConfig>) -> bool {
    forall|i: int, j: int| 0 <= i < j < v.len() ==> #[trigger] v[i].name@ != #[trigger] v[j].name@
}

/// Replacing a configuration by one of the same name replaces it in the map.
proof fn lemma_configs_map_update(v: Seq<LlmConfig>, i: int, c: LlmConfig)
    requires
        names_unique(v),
        0 <= i < v.len(),
        v[i].name@ == c.name@,
    ensures
        configs_map(v.update(i, c)) == configs_map(v).insert(c.name@, c@),
    decreases v.len(),
{
    let w = v.update(i, c);
    if i == v.len() - 1 {
        assert(w.drop_last() =~= v.drop_last());
        assert(configs_map(w) =~= configs_map(v).insert(c.name@, c@));
    } else {
        let d = v.drop_last();
        assert(names_unique(d)) by {
            assert forall|a: int, b: int| 0 <= a < b < d.len() implies #[trigger] d[a].name@ != #[trigger] d[b].name@ by {
                assert(d[a] == v[a] && d[b] == v[b]);
            }
        }
        assert(d[i] == v[i]);
        lemma_configs_map_update(d, i, c);
        assert(w.drop_last() =~= d.update(i, c));
        assert(w.last() == v.last());
        assert(v[i].name@ != v.last().name@);
        assert(configs_map(w) =~= configs_map(v).insert(c.name@, c@));
    }
}

/// Enters `c` under its name, replacing a configuration of the same name.
#[verifier::spinoff_prover]
#[verifier::rlimit(30)]
fn enter_config(v: &mut Vec<LlmConfig>, c: LlmConfig)
    requires
        names_unique(old(v)@),
    ensures
        names_unique(final(v)@),
        configs_map(final(v)@) == configs_map(old(v)@).insert(c.name@, c@),
{
    let mut i: usize = 0;
    while i < v.len()
        invariant
            i <= v.len(),
            v@ == old(v)@,
            names_unique(v@),
            forall|k: int| 0 <= k < i ==> (#[trigger] v@[k]).name@ != c.name@,
        decreases v.len() - i,
    {
        if str_eq(v[i].name.as_str(), c.name.as_str()) {
            proof {
                lemma_configs_map_update(v@, i as int, c);
            }
            let ghost before = v@;
            v.set(i, c);
            assert(v@ == before.update(i as int, c));
            assert(names_unique(v@)) by {
                assert forall|a: int, b: int| 0 <= a < b < v@.len() implies #[trigger] v@[a].name@ != #[trigger] v@[b].name@ by {
                    if a != i && b != i {
                        assert(v@[a] == before[a] && v@[b] == before[b]);
                    } else if a == i {
                        assert(v@[b] == before[b]);
                        assert(v@[a] == c);
                        assert(before[i as int].name@ != before[b].name@);
                    } else {
                        assert(v@[a] == before[a]);
                        assert(v@[b] == c);
                        assert(before[a].name@ != before[i as int].name@);
                    }
                }
            }
            return;
        }
        i = i + 1;
    }
    let ghost before = v@;
    v.push(c);
    assert(v@.drop_last() =~= before);
    assert(names_unique(v@)) by {
        assert forall|a: int, b: int| 0 <= a < b < v@.len() implies #[trigger] v@[a].name@ != #[trigger] v@[b].name@ by {
            assert(v@[a] == before[a]);
            if b < before.len() {
                assert(v@[b] == before[b]);
            } else {
                assert(v@[b] == c);
                assert(before[a].name@ != c.name@);
            }
        }
    }
}

/// The configuration for a provider's model.
fn make_config(p: &ProviderRow, m: &LlmRow) -> (c: LlmConfig)
    ensures
        c@ == config_of(*p, *m),
{
    LlmConfig {
        name: p.name.clone(),
        base_url: p.base_url.clone(),
        api_key: p.api_key.clone(),
        model: m.model_name.clone(),
        max_tokens: m.max_tokens,
        temperature_bits: m.temperature_bits,
    }
}

/// The chat models that can be used, keyed by provider name: every model of
/// every active provider of type `llm`, in order, a later entry under a name
/// replacing an earlier one.
pub fn active_llm_providers(rows: &Vec<ProviderModels>) -> (r: Vec<LlmConfig>)
    ensures
        names_unique(r@),
        configs_map(r@) == enter_providers(Map::empty(), rows@),
{
    let mut r: Vec<LlmConfig> = Vec::new();
    let mut i: usize = 0;
    proof {
        assert(rows@.skip(0) =~= rows@);
    }
    while i < rows.len()
        invariant
            i <= rows.len(),
            names_unique(r@),
            enter_providers(configs_map(r@), rows@.skip(i as int)) == enter_providers(Map::empty(), rows@),
        decreases rows.len() - i,
    {
        let row = &rows[i];
        let ghost start = configs_map(r@);
        proof {
            assert(rows@.skip(i as int).drop_first() =~= rows@.skip(i + 1));
            assert(rows@.skip(i as int)[0] == rows@[i as int]);
        }
        if str_eq(row.provider.provider_type.as_str(), "llm") && row.provider.is_active {
            let mut j: usize = 0;
            proof {
                assert(row.models@.skip(0) =~= row.models@);
            }
            while j < row.models.len()
                invariant
                    j <= row.models.len(),
                    names_unique(r@),
                    enter_models(configs_map(r@), row.provider, row.models@.skip(j as int))
                        == enter_models(start, row.provider, row.models@),
                decreases row.models.len() - j,
            {
                proof {
                    assert(row.models@.skip(j as int).drop_first() =~= row.models@.skip(j + 1));
                    assert(row.models@.skip(j as int)[0] == row.models@[j as int]);
                }
                let c = make_config(&row.provider, &row.models[j]);
                enter_config(&mut r, c);
                j = j + 1;
            }
            proof {
                assert(row.models@.skip(j as int) =~= Seq::<LlmRow>::empty());
            }
        }
        assert(enter_providers(start, rows@.skip(i as int)) == enter_providers(configs_map(r@), rows@.skip(i + 1)));
        i = i + 1;
    }
    proof {
        assert(rows@.skip(i as int) =~= Seq::<ProviderModels>::empty());
    }
    r
}

/// Whether row `i` of `rows` supplies a configuration under `name`.
pub open spec fn supplies(rows: Seq<ProviderModels>, i: int, name: Seq<char>) -> bool {
    &&& 0 <= i < rows.len()
    &&& is_active_llm(rows[i].provider)
    &&& rows[i].provider.name@ == name
    &&& rows[i].models@.len() > 0
}

/// Whether `c` is the configuration of one of the models of row `i`.
pub open spec fn comes_from(rows: Seq<ProviderModels>, i: int, c: LlmConfigView) -> bool {
    exists|j: int| 0 <= j < rows[i].models@.len() && c == config_of(rows[i].provider, rows[i].models@[j])
}

proof fn lemma_enter_models(m: Map<Seq<char>, LlmConfigView>, p: ProviderRow, models: Seq<LlmRow>)
    ensures
        ({
            let r = enter_models(m, p, models);
            &&& forall|n: Seq<char>| #[trigger] r.dom().contains(n) <==> (m.dom().contains(n) || (models.len() > 0 && n == p.name@))
            &&& forall|n: Seq<char>| #[trigger] r.dom().contains(n) && n != p.name@ ==> r[n] == m[n]
            &&& models.len() > 0 ==> exists|j: int| 0 <= j < models.len() && r[p.name@] == config_of(p, models[j])
        }),
    decreases models.len(),
{
    if models.len() > 0 {
        let m1 = m.insert(p.name@, config_of(p, models[0]));
        lemma_enter_models(m1, p, models.drop_first());
        let r = enter_models(m, p, models);
        assert(r == enter_models(m1, p, models.drop_first()));
        if models.drop_first().len() > 0 {
            let j = choose|j: int| 0 <= j < models.drop_first().len() && r[p.name@] == config_of(p, models.drop_first()[j]);
            assert(models.drop_first()[j] == models[j + 1]);
        } else {
            assert(r == m1);
            assert(r[p.name@] == config_of(p, models[0]));
        }
    }
}

proof fn lemma_enter_providers(m: Map<Seq<char>, LlmConfigView>, rows: Seq<ProviderModels>)
    ensures
        ({
            let r = enter_providers(m, rows);
            &&& forall|n: Seq<char>| #[trigger] r.dom().contains(n) <==> (m.dom().contains(n) || exists|i: int| supplies(rows, i, n))
            &&& forall|n: Seq<char>| #[trigger] r.dom().contains(n) ==> ((m.dom().contains(n) && r[n] == m[n]) || exists|i: int| supplies(rows, i, n) && comes_from(rows, i, r[n]))
        }),
    decreases rows.len(),
{
    if rows.len() > 0 {
        let p = rows[0].provider;
        let next = if is_active_llm(p) { enter_models(m, p, rows[0].models@) } else { m };
        lemma_enter_models(m, p, rows[0].models@);
        let tail = rows.drop_first();
        lemma_enter_providers(next, tail);
        let r = enter_providers(m, rows);
        assert(r == enter_providers(next, tail));
        assert forall|n: Seq<char>| #[trigger] r.dom().contains(n) <==> (m.dom().contains(n) || exists|i: int| supplies(rows, i, n)) by {
            assert(next.dom().contains(n) <==> (m.dom().contains(n) || supplies(rows, 0, n)));
            if exists|i: int| supplies(tail, i, n) {
                let i = choose|i: int| supplies(tail, i, n);
                assert(tail[i] == rows[i + 1]);
                assert(supplies(rows, i + 1, n));
            }
            if exists|i: int| supplies(rows, i, n) {
                let i = choose|i: int| supplies(rows, i, n);
                if i > 0 {
                    assert(tail[i - 1] == rows[i]);
                    assert(supplies(tail, i - 1, n));
                }
            }
        }
        assert forall|n: Seq<char>| #[trigger] r.dom().contains(n) implies ((m.dom().contains(n) && r[n] == m[n]) || exists|i: int| supplies(rows, i, n) && comes_from(rows, i, r[n])) by {
            if exists|i: int| supplies(tail, i, n) && comes_from(tail, i, r[n]) {
                let i = choose|i: int| supplies(tail, i, n) && comes_from(tail, i, r[n]);
                assert(tail[i] == rows[i + 1]);
                assert(supplies(rows, i + 1, n));
                let j = choose|j: int| 0 <= j < tail[i].models@.len() && r[n] == config_of(tail[i].provider, tail[i].models@[j]);
                assert(comes_from(rows, i + 1, r[n]));
            } else {
                assert(next.dom().contains(n) && r[n] == next[n]);
                if is_active_llm(p) && n == p.name@ && rows[0].models@.len() > 0 {
                    assert(supplies(rows, 0, n));
                    assert(comes_from(rows, 0, r[n]));
                } else {
                    assert(m.dom().contains(n) && next[n] == m[n]);
                }
            }
        }
    }
}

/// The models that can be used are exactly those of the active providers of
/// type `llm` that have at least one model, and the configuration kept under
/// a name is that of one of the models of a provider of that name.
pub proof fn lemma_active_llm_providers(rows: Seq<ProviderModels>)
    ensures
        ({
            let r = enter_providers(Map::empty(), rows);
            &&& forall|n: Seq<char>| #[trigger] r.dom().contains(n) <==> exists|i: int| supplies(rows, i, n)
            &&& forall|n: Seq<char>| #[trigger] r.dom().contains(n) ==> exists|i: int| supplies(rows, i, n) && comes_from(rows, i, r[n])
        }),
{
    lemma_enter_providers(Map::empty(), rows);
}

proof fn lemma_enter_models_last(m: Map<Seq<char>, LlmConfigView>, p: ProviderRow, models: Seq<LlmRow>)
    requires
        models.len() > 0,
    ensures
        enter_models(m, p, models)[p.name@] == config_of(p, models.last()),
    decreases models.len(),
{
    let m1 = m.insert(p.name@, config_of(p, models[0]));
    let rest = models.drop_first();
    if rest.len() == 0 {
        assert(enter_models(m, p, models) == enter_models(m1, p, rest));
        assert(enter_models(m1, p, rest) == m1);
    } else {
        lemma_enter_models_last(m1, p, rest);
        assert(rest.last() == models.last());
    }
}

/// Whether row `i` of `rows` is an active chat-model provider named `name`
/// with at least one model, written out field by field.
pub open spec fn offers(rows: Seq<ProviderModels>, i: int, name: Seq<char>) -> bool {
    &&& 0 <= i < rows.len()
    &&& rows[i].provider.provider_type@ == "llm"@
    &&& rows[i].provider.is_active
    &&& rows[i].provider.name@ == name
    &&& rows[i].models@.len() > 0
}

proof fn lemma_enter_providers_last(m: Map<Seq<char>, LlmConfigView>, rows: Seq<ProviderModels>)
    ensures
        forall|n: Seq<char>| #[trigger] enter_providers(m, rows).dom().contains(n) ==> {
            ||| (forall|k: int| !#[trigger] offers(rows, k, n)) && m.dom().contains(n) && enter_providers(m, rows)[n] == m[n]
            ||| exists|i: int| #![trigger offers(rows, i, n)] {
                &&& offers(rows, i, n)
                &&& forall|k: int| i < k ==> !#[trigger] offers(rows, k, n)
                &&& enter_providers(m, rows)[n] == config_of(rows[i].provider, rows[i].models@.last())
            }
        },
    decreases rows.len(),
{
    if rows.len() > 0 {
        let p = rows[0].provider;
        let next = if is_active_llm(p) { enter_models(m, p, rows[0].models@) } else { m };
        let tail = rows.drop_first();
        lemma_enter_models(m, p, rows[0].models@);
        lemma_enter_providers_last(next, tail);
        let r = enter_providers(m, rows);
        assert(r == enter_providers(next, tail));
        assert forall|n: Seq<char>| #[trigger] r.dom().contains(n) implies {
            ||| (forall|k: int| !#[trigger] offers(rows, k, n)) && m.dom().contains(n) && r[n] == m[n]
            ||| exists|i: int| #![trigger offers(rows, i, n)] {
                &&& offers(rows, i, n)
                &&& forall|k: int| i < k ==> !#[trigger] offers(rows, k, n)
                &&& r[n] == config_of(rows[i].provider, rows[i].models@.last())
            }
        } by {
            assert(enter_providers(next, tail).dom().contains(n));
            assert forall|k: int| 0 < k && #[trigger] offers(rows, k, n) implies offers(tail, k - 1, n) by {
                assert(tail[k - 1] == rows[k]);
            }
            if exists|i: int| #![trigger offers(tail, i, n)] {
                &&& offers(tail, i, n)
                &&& forall|k: int| i < k ==> !#[trigger] offers(tail, k, n)
                &&& r[n] == config_of(tail[i].provider, tail[i].models@.last())
            } {
                let i = choose|i: int| #![trigger offers(tail, i, n)] {
                    &&& offers(tail, i, n)
                    &&& forall|k: int| i < k ==> !#[trigger] offers(tail, k, n)
                    &&& r[n] == config_of(tail[i].provider, tail[i].models@.last())
                };
                assert(tail[i] == rows[i + 1]);
                assert(offers(rows, i + 1, n));
                assert forall|k: int| i + 1 < k implies !#[trigger] offers(rows, k, n) by {
                    if offers(rows, k, n) {
                        assert(offers(tail, k - 1, n));
                    }
                }
            } else {
                assert(forall|k: int| !#[trigger] offers(tail, k, n));
                assert(next.dom().contains(n) && r[n] == next[n]);
                reveal_strlit("llm");
                if offers(rows, 0, n) {
                    assert(is_active_llm(p));
                    lemma_enter_models_last(m, p, rows[0].models@);
                    assert forall|k: int| 0 < k implies !#[trigger] offers(rows, k, n) by {
                        if offers(rows, k, n) {
                            assert(offers(tail, k - 1, n));
                        }
                    }
                } else {
                    if is_active_llm(p) && rows[0].models@.len() > 0 {
                        assert(n != p.name@);
                    }
                    if is_active_llm(p) && rows[0].models@.len() == 0 {
                        assert(next == m);
                    }
                    assert(m.dom().contains(n) && next[n] == m[n]);
                    assert forall|k: int| !#[trigger] offers(rows, k, n) by {
                        if k > 0 && offers(rows, k, n) {
                            assert(offers(tail, k - 1, n));
                        }
                    }
                }
            }
        }
    }
}

/// What is installed under each name is taken unchanged from the store: the
/// name, base url and api key of the last active `llm` provider of that name
/// that has models, and the model name, token limit and temperature of that
/// provider's last model (later entries replace earlier ones); and every
/// active `llm` provider with models has its name installed.
pub proof fn lemma_installed_configs(rows: Seq<ProviderModels>)
    ensures
        forall|n: Seq<char>| #[trigger] enter_providers(Map::empty(), rows).dom().contains(n) ==> exists|i: int| #![trigger offers(rows, i, n)] {
            let c = enter_providers(Map::empty(), rows)[n];
            let model = rows[i].models@.last();
            &&& offers(rows, i, n)
            &&& forall|k: int| i < k ==> !#[trigger] offers(rows, k, n)
            &&& c.name == n
            &&& c.base_url == rows[i].provider.base_url@
            &&& c.api_key == rows[i].provider.api_key@
            &&& c.model == model.model_name@
            &&& c.max_tokens == model.max_tokens
            &&& c.temperature_bits == model.temperature_bits
        },
        forall|i: int| #![trigger rows[i]] 0 <= i < rows.len() && offers(rows, i, rows[i].provider.name@) ==> enter_providers(
            Map::empty(),
            rows,
        ).dom().contains(rows[i].provider.name@),
{
    lemma_enter_providers_last(Map::empty(), rows);
    lemma_enter_providers(Map::empty(), rows);
    reveal_strlit("llm");
    assert forall|i: int| #![trigger rows[i]] 0 <= i < rows.len() && offers(rows, i, rows[i].provider.name@) implies enter_providers(
        Map::empty(),
        rows,
    ).dom().contains(rows[i].provider.name@) by {
        assert(supplies(rows, i, rows[i].provider.name@));
    }
}

/// Why hashing a password failed.
#[derive(PartialEq, Eq, Structural, Clone, Copy, Debug)]
pub enum HashErrorKind {
    /// The cost is outside 4 to 31.
    CostNotAllowed,
    /// No random salt could be had from the operating system.
    NoRandomness,
    /// Any other failure bcrypt can report (hashing never reports one).
    Other,
}

/// A failed hashing: why, and bcrypt's text for it.
#[derive(Debug)]
pub struct HashError {
    pub kind: HashErrorKind,
    pub text: String,
}

/// The characters of bcrypt's base-64 alphabet (`./A-Za-z0-9`).
pub open spec fn is_bcrypt_base64(c: char) -> bool {
    c == '.' || c == '/' || ('A' <= c <= 'Z') || ('a' <= c <= 'z') || ('0' <= c <= '9')
}

/// A bcrypt hash in the `$2b$` format at cost `cost`: `$2b$`, the cost in two
/// digits, `$`, then 53 base-64 characters (the 22 of the salt and the 31 of
/// the digest).
pub open spec fn is_bcrypt_hash(h: Seq<char>, cost: u32) -> bool {
    &&& h.len() == 60
    &&& h[0] == '$' && h[1] == '2' && h[2] == 'b' && h[3] == '$'
    &&& h[4] == digit((cost / 10) as nat) && h[5] == digit((cost % 10) as nat)
    &&& h[6] == '$'
    &&& forall|i: int| 7 <= i < 60 ==> is_bcrypt_base64(#[trigger] h[i])
}

/// The 31 digest characters that `bcrypt::hash` writes after the salt: the
/// bcrypt digest of `password` at `cost` with the 16 salt bytes that the 22
/// characters of `salt` encode, in bcrypt's base 64. It depends on these
/// three alone.
pub uninterp spec fn bcrypt_digest(password: Seq<char>, cost: u32, salt: Seq<char>) -> Seq<char>;

/// Whether `h` is a `$2b$` hash of `password` at `cost`: its digest is the one
/// its own salt gives for `password` (what `bcrypt::verify` recomputes).
pub open spec fn hashes_password(h: Seq<char>, password: Seq<char>, cost: u32) -> bool {
    &&& is_bcrypt_hash(h, cost)
    &&& h.subrange(29, 60) == bcrypt_digest(password, cost, h.subrange(7, 29))
}

/// `bcrypt::DEFAULT_COST`, which the crate sets to 12.
#[verifier::external_body]
fn bcrypt_default_cost() -> (r: u32)
    ensures
        r == 12,
{
    bcrypt::DEFAULT_COST
}

/// `bcrypt::hash`: hashes `password` with a salt drawn from the operating
/// system's randomness. The salt is drawn first: when that fails the error is
/// `NoRandomness`; otherwise a cost outside 4 to 31 gives `CostNotAllowed`.
/// It reports no other error. Otherwise it returns the `$2b$` hash: the cost,
/// the salt drawn, and the digest of `password` with that salt and cost.
/// Which salt was drawn, and the error text, are not stated.
#[verifier::external_body]
fn bcrypt_hash(password: &str, cost: u32) -> (r: Result<String, HashError>)
    ensures
        !(4 <= cost <= 31) ==> r is Err,
        r matches Err(e) ==> e.kind != HashErrorKind::Other,
        4 <= cost <= 31 ==> (r matches Err(e) ==> e.kind == HashErrorKind::NoRandomness),
        r matches Ok(h) ==> is_bcrypt_hash(h@, cost),
        r matches Ok(h) ==> h@.subrange(29, 60) == bcrypt_digest(password@, cost, h@.subrange(7, 29)),
{
    match bcrypt::hash(password, cost) {
        Ok(h) => Ok(h),
        Err(e) => {
            let kind = match e {
                bcrypt::BcryptError::CostNotAllowed(_) => HashErrorKind::CostNotAllowed,
                bcrypt::BcryptError::Rand(_) => HashErrorKind::NoRandomness,
                _ => HashErrorKind::Other,
            };
            Err(HashError { kind, text: e.to_string() })
        },
    }
}

/// A user to be stored.
pub struct NewUser {
    pub username: String,
    pub password_hash: String,
}

/// The name of the user that every conversation belongs to.
pub open spec fn default_username() -> Seq<char> {
    "default"@
}

/// The password of the default user.
pub open spec fn default_password() -> Seq<char> {
    "123456"@
}

/// The default user for the outcome of hashing its password: the user named
/// `default` with that hash, or the error unchanged.
pub fn default_user_from(hashed: Result<String, HashError>) -> (r: Result<NewUser, HashError>)
    ensures
        match hashed {
            Ok(h) => r matches Ok(u) && u.username@ == default_username() && u.password_hash == h,
            Err(e) => r matches Err(f) && f.kind == e.kind && f.text == e.text,
        },
{
    match hashed {
        Ok(h) => Ok(NewUser { username: "default".to_owned(), password_hash: h }),
        Err(e) => Err(e),
    }
}

/// The default user, named `default`, with password `123456` hashed by bcrypt
/// at its default cost. Hashing fails only when the operating system gives no
/// randomness.
pub fn create_default_user() -> (r: Result<NewUser, HashError>)
    ensures
        r matches Ok(u) ==> {
            &&& u.username@ == default_username()
            &&& hashes_password(u.password_hash@, default_password(), 12)
        },
        r matches Err(e) ==> e.kind == HashErrorKind::NoRandomness,
{
    let cost = bcrypt_default_cost();
    default_user_from(bcrypt_hash("123456", cost))
}

} // verus!
