//! What the window shows: the models, how each of them is doing, and what can be done about it.
use crate::config;
use crate::config::{AppConfig, ModelEntry};
use crate::manager::ProcessManager;
use crate::replies;
use crate::selections;
use crate::selections::ProfileSelections;
use crate::text;
use std::collections::HashSet;
use vstd::prelude::*;
use vstd::string::*;

verus! {

broadcast use vstd::std_specs::hash::group_hash_axioms;

// ── The models ──────────────────────────────────────────────────────────────

/// One model as the window shows it.
#[derive(Clone)]
pub struct ModelDisplay {
    pub id: String,
    pub port: u16,
    pub display_name: String,
    pub alias: String,
    /// Its server was started here and runs.
    pub owned: bool,
    /// Something else listens on its port.
    pub external: bool,
    /// Its server is being started.
    pub warming: bool,
    pub profiles: Vec<String>,
    pub selected_profile: Option<String>,
    pub ctx_size: u32,
    pub vision: bool,
    pub flash_attn: bool,
    pub is_moe: bool,
}

/// What a `ModelDisplay` says.
pub struct DisplayView {
    pub id: Seq<char>,
    pub port: u16,
    pub display_name: Seq<char>,
    pub alias: Seq<char>,
    pub owned: bool,
    pub external: bool,
    pub warming: bool,
    pub profiles: Seq<Seq<char>>,
    pub selected_profile: Option<Seq<char>>,
    pub ctx_size: u32,
    pub vision: bool,
    pub flash_attn: bool,
    pub is_moe: bool,
}

impl DeepView for ModelDisplay {
    type V = DisplayView;

    open spec fn deep_view(&self) -> DisplayView {
        DisplayView {
            id: self.id@,
            port: self.port,
            display_name: self.display_name@,
            alias: self.alias@,
            owned: self.owned,
            external: self.external,
            warming: self.warming,
            profiles: config::texts(self.profiles@),
            selected_profile: self.selected_profile.deep_view(),
            ctx_size: self.ctx_size,
            vision: self.vision,
            flash_attn: self.flash_attn,
            is_moe: self.is_moe,
        }
    }
}

/// The name that a model is shown under: its own, or else what stands behind the last slash of
/// its id.
pub open spec fn shown_name(m: config::ModelView) -> Seq<char> {
    match m.name {
        Some(name) => name,
        None => m.id.skip(text::find_last(m.id, '/') + 1),
    }
}

/// The size of the context window that the arguments of a server set; 0 where they set none.
pub open spec fn context_size(args: Seq<Seq<char>>) -> nat {
    match config::arg_value(args, "--ctx-size"@) {
        Some(v) => match text::unsigned(v, u32::MAX as nat) {
            Some(n) => n,
            None => 0,
        },
        None => 0,
    }
}

/// The names of some profiles.
pub open spec fn names(profiles: Seq<config::ProfileView>) -> Seq<Seq<char>> {
    profiles.map_values(|p: config::ProfileView| p.name)
}

/// The value of a key, where the map has it.
pub open spec fn looked_up(m: Map<Seq<char>, Seq<char>>, key: Seq<char>) -> Option<Seq<char>> {
    if m.contains_key(key) {
        Some(m[key])
    } else {
        None
    }
}

/// A model as the window shows it, given the servers that run, the ports that something listens
/// on, the ports that are warming, and the chosen profiles.
pub open spec fn display_of(
    m: config::ModelView,
    running: Map<u16, u128>,
    alive: Seq<u16>,
    warming: Set<u16>,
    chosen: Map<Seq<char>, Seq<char>>,
) -> DisplayView {
    let owned = running.contains_key(m.port);
    let external = !owned && alive.contains(m.port);
    DisplayView {
        id: m.id,
        port: m.port,
        display_name: shown_name(m),
        alias: match m.alias {
            Some(a) => a,
            None => seq![],
        },
        owned,
        external,
        warming: warming.contains(m.port) && !owned && !external,
        profiles: names(m.profiles),
        selected_profile: looked_up(chosen, m.id),
        ctx_size: context_size(m.arguments) as u32,
        vision: m.arguments.contains("--mmproj"@),
        flash_attn: m.arguments.contains("--flash-attn"@),
        is_moe: m.arguments.contains("--n-cpu-moe"@),
    }
}

/// The name that a model is shown under.
fn name_to_show(m: &ModelEntry) -> (name: String)
    ensures
        name@ == shown_name(m.deep_view()),
{
    match &m.name {
        Some(name) => name.clone(),
        None => {
            let chars = text::chars_of(m.id.as_str());
            let from: usize = match text::rfind_char(chars.as_slice(), '/') {
                Some(slash) => slash + 1,
                None => 0,
            };
            let part = text::slice_of(chars.as_slice(), from, chars.len());
            assert(part@ == m.id@.skip(from as int));
            text::string_of(part.as_slice())
        },
    }
}

/// The whole number up to `max` that follows an argument, where a number does.
pub fn whole_arg(args: &[String], name: &str, max: u64) -> (res: Option<u64>)
    ensures
        match config::arg_value(config::texts(args@), name@) {
            Some(v) => match text::unsigned(v, max as nat) {
                Some(n) => res == Some(n as u64) && n <= max,
                None => res is None,
            },
            None => res is None,
        },
{
    match config::get_arg_value(args, name) {
        Some(v) => {
            let chars = text::chars_of(v.as_str());
            text::parse_unsigned(chars.as_slice(), max)
        },
        None => None,
    }
}

/// The names of the profiles of a model.
fn profile_names(m: &ModelEntry) -> (res: Vec<String>)
    ensures
        config::texts(res@) == names(m.deep_view().profiles),
{
    let mut res: Vec<String> = Vec::new();
    let ghost all = m.deep_view().profiles;
    let mut i: usize = 0;
    while i < m.profiles.len()
        invariant
            i <= m.profiles.len(),
            all == m.profiles.deep_view(),
            config::texts(res@) == names(all).take(i as int),
        decreases m.profiles.len() - i,
    {
        let name = m.profiles[i].name.clone();
        assert(all[i as int] == m.profiles@[i as int].deep_view());
        assert(config::texts(res@.push(name)) == config::texts(res@).push(name@));
        assert(names(all).take(i + 1) == names(all).take(i as int).push(name@));
        res.push(name);
        i += 1;
    }
    assert(names(all).take(all.len() as int) == names(all));
    res
}

/// A model as the window shows it.
pub fn display_model(
    m: &ModelEntry,
    pm: &ProcessManager,
    alive: &Vec<u16>,
    warming: &HashSet<u16>,
    chosen: &ProfileSelections,
) -> (res: ModelDisplay)
    requires
        chosen.wf(),
    ensures
        res.deep_view() == display_of(
            m.deep_view(),
            pm.running(),
            alive@,
            warming@,
            chosen@,
        ),
{
    assert(m.arguments.deep_view() =~= config::texts(m.arguments@));
    let owned = pm.is_running(m.port);
    let external = !owned && replies::has_port(alive, m.port);
    let args = m.arguments.as_slice();
    let ctx_size: u32 = match whole_arg(args, "--ctx-size", u32::MAX as u64) {
        Some(n) => n as u32,
        None => 0,
    };
    let alias = match &m.alias {
        Some(a) => a.clone(),
        None => String::new(),
    };
    assert(m.alias is None ==> alias@ =~= Seq::<char>::empty());
    ModelDisplay {
        id: m.id.clone(),
        port: m.port,
        display_name: name_to_show(m),
        alias,
        owned,
        external,
        warming: warming.contains(&m.port) && !owned && !external,
        profiles: profile_names(m),
        selected_profile: chosen.get(m.id.as_str()),
        ctx_size,
        vision: config::has_arg(args, "--mmproj"),
        flash_attn: config::has_arg(args, "--flash-attn"),
        is_moe: config::has_arg(args, "--n-cpu-moe"),
    }
}

// ── The window ──────────────────────────────────────────────────────────────

/// What the window shows and what it knows.
pub struct WakeupApp {
    pub models: Vec<ModelDisplay>,
    pub message: String,
    pub proxy_port: u16,
    pub models_cfg: Vec<ModelEntry>,
    pub idle_timeout_mins: u64,
    pub profile_selections: ProfileSelections,
}

/// All models as the window shows them.
pub open spec fn displays(
    models: Seq<config::ModelView>,
    running: Map<u16, u128>,
    alive: Seq<u16>,
    warming: Set<u16>,
    chosen: Map<Seq<char>, Seq<char>>,
) -> Seq<DisplayView> {
    models.map_values(
        |m: config::ModelView| display_of(m, running, alive, warming, chosen),
    )
}

/// The models whose servers were started here and run.
pub open spec fn owned_models(shown: Seq<DisplayView>) -> Seq<DisplayView> {
    shown.filter(|d: DisplayView| d.owned)
}

/// The ids of some models.
pub open spec fn ids(shown: Seq<DisplayView>) -> Seq<Seq<char>> {
    shown.map_values(|d: DisplayView| d.id)
}

/// The ports of some models.
pub open spec fn ports(shown: Seq<DisplayView>) -> Seq<u16> {
    shown.map_values(|d: DisplayView| d.port)
}

/// The line below the title of the window.
pub open spec fn status_line(count: nat, port: u16, mins: u64) -> Seq<char> {
    text::decimal(count) + " running | Proxy :"@ + text::decimal(port as nat) + " | Idle: "@
        + text::decimal(mins as nat) + "m"@
}

/// The line below the title of the window.
fn status_text(count: usize, port: u16, mins: u64) -> (res: String)
    ensures
        res@ == status_line(count as nat, port, mins),
{
    text::decimal_string(count as u64).concat(" running | Proxy :").concat(
        text::decimal_string(port as u64).as_str(),
    ).concat(" | Idle: ").concat(text::decimal_string(mins).as_str()).concat("m")
}

/// The ids of those models whose servers were started here and run.
fn owned_ids(shown: &Vec<ModelDisplay>) -> (res: Vec<String>)
    ensures
        config::texts(res@) == ids(owned_models(shown.deep_view())),
{
    let mut res: Vec<String> = Vec::new();
    let ghost all = shown.deep_view();
    let mut i: usize = 0;
    proof {
        reveal(Seq::filter);
        assert(all.take(0) == Seq::<DisplayView>::empty());
    }
    while i < shown.len()
        invariant
            i <= shown.len(),
            all == shown.deep_view(),
            config::texts(res@) == ids(owned_models(all.take(i as int))),
        decreases shown.len() - i,
    {
        proof {
            reveal(Seq::filter);
            assert(all.take(i + 1).drop_last() == all.take(i as int));
            assert(all.take(i + 1).last() == shown@[i as int].deep_view());
        }
        if shown[i].owned {
            let id = shown[i].id.clone();
            assert(config::texts(res@.push(id)) == config::texts(res@).push(id@));
            assert(ids(owned_models(all.take(i as int)).push(all[i as int])) == ids(
                owned_models(all.take(i as int)),
            ).push(id@));
            res.push(id);
        }
        i += 1;
    }
    assert(all.take(all.len() as int) == all);
    res
}

/// The ports of those models whose servers were started here and run.
fn owned_ports(shown: &Vec<ModelDisplay>) -> (res: Vec<u16>)
    ensures
        res@ == ports(owned_models(shown.deep_view())),
{
    let mut res: Vec<u16> = Vec::new();
    let ghost all = shown.deep_view();
    let mut i: usize = 0;
    proof {
        reveal(Seq::filter);
        assert(all.take(0) == Seq::<DisplayView>::empty());
    }
    while i < shown.len()
        invariant
            i <= shown.len(),
            all == shown.deep_view(),
            res@ == ports(owned_models(all.take(i as int))),
        decreases shown.len() - i,
    {
        proof {
            reveal(Seq::filter);
            assert(all.take(i + 1).drop_last() == all.take(i as int));
            assert(all.take(i + 1).last() == shown@[i as int].deep_view());
        }
        if shown[i].owned {
            assert(ports(owned_models(all.take(i as int)).push(all[i as int])) == ports(
                owned_models(all.take(i as int)),
            ).push(all[i as int].port));
            res.push(shown[i].port);
        }
        i += 1;
    }
    assert(all.take(all.len() as int) == all);
    res
}

/// Whether the window shows the model `id` as running, here or elsewhere.
pub open spec fn is_up(shown: Seq<DisplayView>, id: Seq<char>) -> bool {
    exists|i: int|
        0 <= i < shown.len() && (#[trigger] shown[i]).id == id && (shown[i].owned
            || shown[i].external)
}

impl WakeupApp {
    /// The window before its first refresh.
    pub fn new(cfg: AppConfig, profile_selections: ProfileSelections) -> (app: WakeupApp)
        requires
            profile_selections.wf(),
        ensures
            app.wf(),
            app.models@.len() == 0,
            app.proxy_port == (match cfg.out_port {
                Some(p) => p,
                None => 8000,
            }),
            app.message@ == "Proxy on :"@ + text::decimal(app.proxy_port as nat),
            app.models_cfg == cfg.models,
            app.idle_timeout_mins == cfg.idle_timeout_seconds / 60,
            app.profile_selections == profile_selections,
    {
        let proxy_port = cfg.proxy_port();
        let idle_timeout_mins = cfg.idle_timeout_mins();
        let message = "Proxy on :".to_string().concat(
            text::decimal_string(proxy_port as u64).as_str(),
        );
        WakeupApp {
            models: Vec::new(),
            message,
            proxy_port,
            models_cfg: cfg.models,
            idle_timeout_mins,
            profile_selections,
        }
    }

    /// Whether every model has one chosen profile at most.
    pub open spec fn wf(&self) -> bool {
        self.profile_selections.wf()
    }

    /// The ports to probe before a refresh: those of the models whose servers do not run here.
    pub fn ports_to_probe(&self, pm: &ProcessManager) -> (res: Vec<u16>)
        ensures
            res@ == self.models_cfg.deep_view().map_values(
                |m: config::ModelView| m.port,
            ).filter(|p: u16| !pm.running().contains_key(p)),
    {
        let mut res: Vec<u16> = Vec::new();
        let ghost keep = |p: u16| !pm.running().contains_key(p);
        let ghost all = self.models_cfg.deep_view().map_values(|m: config::ModelView| m.port);
        let mut i: usize = 0;
        proof {
            reveal(Seq::filter);
            assert(all.take(0) == Seq::<u16>::empty());
        }
        while i < self.models_cfg.len()
            invariant
                i <= self.models_cfg.len(),
                all == self.models_cfg.deep_view().map_values(|m: config::ModelView| m.port),
                keep == |p: u16| !pm.running().contains_key(p),
                res@ == all.take(i as int).filter(keep),
            decreases self.models_cfg.len() - i,
        {
            let port = self.models_cfg[i].port;
            proof {
                reveal(Seq::filter);
                assert(all.take(i + 1).drop_last() == all.take(i as int));
                assert(all.take(i + 1).last() == self.models_cfg@[i as int].deep_view().port);
            }
            if !pm.is_running(port) {
                res.push(port);
            }
            i += 1;
        }
        assert(all.take(all.len() as int) == all);
        res
    }

    /// Shows the models as they are now, given the ports that something listens on, and gives the
    /// ids of those that run, to be kept for the next run. No port is noted as warming after that.
    pub fn refresh(
        &mut self,
        pm: &ProcessManager,
        warming: &mut HashSet<u16>,
        alive: &Vec<u16>,
    ) -> (running_ids: Vec<String>)
        requires
            old(self).wf(),
        ensures
            final(self).wf(),
            final(warming)@ == Set::<u16>::empty(),
            final(self).models.deep_view() == displays(
                old(self).models_cfg.deep_view(),
                pm.running(),
                alive@,
                final(warming)@,
                old(self).profile_selections@,
            ),
            config::texts(running_ids@) == ids(owned_models(final(self).models.deep_view())),
            final(self).message@ == status_line(
                owned_models(final(self).models.deep_view()).len(),
                old(self).proxy_port,
                old(self).idle_timeout_mins,
            ),
            final(self).proxy_port == old(self).proxy_port,
            final(self).models_cfg == old(self).models_cfg,
            final(self).idle_timeout_mins == old(self).idle_timeout_mins,
            final(self).profile_selections == old(self).profile_selections,
    {
        warming.clear();
        let mut models: Vec<ModelDisplay> = Vec::new();
        let ghost all = self.models_cfg.deep_view();
        let ghost shown = displays(
            all,
            pm.running(),
            alive@,
            warming@,
            self.profile_selections@,
        );
        let mut i: usize = 0;
        while i < self.models_cfg.len()
            invariant
                i <= self.models_cfg.len(),
                self.wf(),
                *self == *old(self),
                all == self.models_cfg.deep_view(),
                shown == displays(
                    all,
                    pm.running(),
                    alive@,
                    warming@,
                    self.profile_selections@,
                ),
                models.deep_view() == shown.take(i as int),
            decreases self.models_cfg.len() - i,
        {
            let d = display_model(
                &self.models_cfg[i],
                pm,
                alive,
                warming,
                &self.profile_selections,
            );
            assert(all[i as int] == self.models_cfg@[i as int].deep_view());
            assert(shown.take(i + 1) == shown.take(i as int).push(d.deep_view()));
            models.push(d);
            assert(models.deep_view() =~= shown.take(i as int).push(d.deep_view()));
            i += 1;
        }
        assert(shown.take(shown.len() as int) == shown);
        let running_ids = owned_ids(&models);
        assert(config::texts(running_ids@).len() == owned_models(shown).len());
        self.message = status_text(running_ids.len(), self.proxy_port, self.idle_timeout_mins);
        self.models = models;
        running_ids
    }

    /// The port of the model `model_id`, to be started; it is warming from now on.
    pub fn warmup_model(&self, model_id: &str, warming: &mut HashSet<u16>) -> (res: Option<u16>)
        ensures
            match config::model_of(self.models_cfg.deep_view(), model_id@) {
                Some(m) => res == Some(m.port) && final(warming)@ == old(warming)@.insert(m.port),
                None => res is None && final(warming)@ == old(warming)@,
            },
    {
        match config::find_model(&self.models_cfg, model_id) {
            Some(m) => {
                let _ = warming.insert(m.port);
                Some(m.port)
            },
            None => None,
        }
    }

    /// The models to start again, of those that ran: those that do not run yet.
    pub fn models_to_warm(&self, ran: &Vec<String>) -> (res: Vec<String>)
        ensures
            config::texts(res@) == config::texts(ran@).filter(
                |id: Seq<char>| !is_up(self.models.deep_view(), id),
            ),
    {
        let mut res: Vec<String> = Vec::new();
        let ghost all = config::texts(ran@);
        let ghost down = |id: Seq<char>| !is_up(self.models.deep_view(), id);
        let mut i: usize = 0;
        proof {
            reveal(Seq::filter);
            assert(all.take(0) == Seq::<Seq<char>>::empty());
            assert(config::texts(res@) =~= Seq::<Seq<char>>::empty());
        }
        while i < ran.len()
            invariant
                i <= ran.len(),
                all == config::texts(ran@),
                down == |id: Seq<char>| !is_up(self.models.deep_view(), id),
                config::texts(res@) == all.take(i as int).filter(down),
            decreases ran.len() - i,
        {
            proof {
                reveal(Seq::filter);
                assert(all.take(i + 1).drop_last() == all.take(i as int));
                assert(all.take(i + 1).last() == ran@[i as int]@);
            }
            if !self.shows_up(ran[i].as_str()) {
                let id = ran[i].clone();
                assert(config::texts(res@.push(id)) == config::texts(res@).push(id@));
                res.push(id);
            }
            i += 1;
        }
        assert(all.take(all.len() as int) == all);
        res
    }

    /// Whether the window shows the model `id` as running, here or elsewhere.
    fn shows_up(&self, id: &str) -> (res: bool)
        ensures
            res == is_up(self.models.deep_view(), id@),
    {
        let ghost shown = self.models.deep_view();
        let mut i: usize = 0;
        while i < self.models.len()
            invariant
                i <= self.models.len(),
                shown == self.models.deep_view(),
                forall|k: int|
                    0 <= k < i ==> !((#[trigger] shown[k]).id == id@ && (shown[k].owned
                        || shown[k].external)),
            decreases self.models.len() - i,
        {
            let m = &self.models[i];
            assert(shown[i as int] == m.deep_view());
            if text::same_text(m.id.as_str(), id) && (m.owned || m.external) {
                return true;
            }
            i += 1;
        }
        false
    }

    /// The ports of the servers to stop when all models are to be unloaded: those that were
    /// started here.
    pub fn ports_to_unload(&self) -> (res: Vec<u16>)
        ensures
            res@ == ports(owned_models(self.models.deep_view())),
    {
        owned_ports(&self.models)
    }

    /// Chooses a profile for a model, or takes the choice back, and gives the text to write to
    /// the file of the choices.
    pub fn choose_profile(&mut self, model_id: &str, profile: Option<&str>) -> (res: Option<String>)
        requires
            old(self).wf(),
        ensures
            final(self).wf(),
            final(self).profile_selections@ == (match profile {
                Some(p) => old(self).profile_selections@.insert(model_id@, p@),
                None => old(self).profile_selections@.remove(model_id@),
            }),
            res is Some,
            res matches Some(data) ==> final(self).profile_selections@
                == selections::loaded_selections(Some(data@)),
            final(self).models == old(self).models,
            final(self).message == old(self).message,
            final(self).proxy_port == old(self).proxy_port,
            final(self).models_cfg == old(self).models_cfg,
            final(self).idle_timeout_mins == old(self).idle_timeout_mins,
    {
        selections::save_profile_selection(model_id, profile, &mut self.profile_selections)
    }
}

// ── Laws ────────────────────────────────────────────────────────────────────

/// The window shows every configured model, in the order of the configuration, and each in one
/// state at most: started here, running elsewhere, or warming.
pub proof fn law_every_model_is_shown_once(
    models: Seq<config::ModelView>,
    running: Map<u16, u128>,
    alive: Seq<u16>,
    warming: Set<u16>,
    chosen: Map<Seq<char>, Seq<char>>,
)
    ensures
        ({
            let shown = displays(models, running, alive, warming, chosen);
            &&& shown.len() == models.len()
            &&& forall|i: int|
                0 <= i < shown.len() ==> {
                    let d = #[trigger] shown[i];
                    &&& d.id == models[i].id
                    &&& d.port == models[i].port
                    &&& !(d.owned && d.external)
                    &&& !(d.owned && d.warming)
                    &&& !(d.external && d.warming)
                }
        }),
{
}

/// The models that ran when the state was saved are started again by a window that shows none of
/// them running.
pub proof fn law_saved_models_start_again(shown: Seq<DisplayView>, ran: Seq<Seq<char>>)
    requires
        forall|i: int| 0 <= i < ran.len() ==> !is_up(shown, #[trigger] ran[i]),
    ensures
        ran.filter(|id: Seq<char>| !is_up(shown, id)) == ran,
    decreases ran.len(),
{
    reveal(Seq::filter);
    let down = |id: Seq<char>| !is_up(shown, id);
    if ran.len() > 0 {
        let front = ran.drop_last();
        assert forall|i: int| 0 <= i < front.len() implies !is_up(shown, #[trigger] front[i]) by {
            assert(front[i] == ran[i]);
        }
        law_saved_models_start_again(shown, front);
        assert(down(ran[ran.len() - 1]));
        assert(front.push(ran.last()) == ran);
    }
}

/// What is shown of a model: its id and port as they are configured, its alias, the names of its
/// profiles and the chosen one; that it runs here exactly where its server does, that it runs
/// elsewhere exactly where its server does not but something listens on its port, and that it is
/// warming only where neither holds.
pub proof fn law_model_is_shown_as_it_is(
    m: config::ModelView,
    running: Map<u16, u128>,
    alive: Seq<u16>,
    warming: Set<u16>,
    chosen: Map<Seq<char>, Seq<char>>,
)
    ensures
        ({
            let d = display_of(m, running, alive, warming, chosen);
            let here = running.contains_key(m.port);
            &&& d.id == m.id && d.port == m.port
            &&& m.alias matches Some(a) ==> d.alias == a
            &&& m.alias is None ==> d.alias.len() == 0
            &&& d.owned <==> here
            &&& d.external <==> !here && alive.contains(m.port)
            &&& d.warming <==> !here && !alive.contains(m.port) && warming.contains(m.port)
            &&& d.profiles.len() == m.profiles.len()
            &&& forall|i: int|
                0 <= i < m.profiles.len() ==> #[trigger] d.profiles[i] == m.profiles[i].name
            &&& chosen.contains_key(m.id) ==> d.selected_profile == Some(chosen[m.id])
            &&& !chosen.contains_key(m.id) ==> d.selected_profile is None
            &&& d.vision <==> m.arguments.contains("--mmproj"@)
            &&& d.flash_attn <==> m.arguments.contains("--flash-attn"@)
            &&& d.is_moe <==> m.arguments.contains("--n-cpu-moe"@)
        }),
{
}

/// A model is shown under its own name; one without a name under what stands behind the last slash
/// of its id, or under its id where that has none.
pub proof fn law_name_that_is_shown(m: config::ModelView, front: Seq<char>, back: Seq<char>)
    requires
        !back.contains('/'),
    ensures
        m.name matches Some(name) ==> shown_name(m) == name,
        m.name is None && m.id == front + seq!['/'] + back ==> shown_name(m) == back,
        m.name is None && m.id == back ==> shown_name(m) == back,
{
    text::lemma_find_last(m.id, '/');
    let slash = text::find_last(m.id, '/');
    if m.id == front + seq!['/'] + back {
        assert(m.id[front.len() as int] == '/');
        if slash > front.len() {
            assert(back[slash - front.len() - 1] == '/');
        }
        assert(m.id.skip(slash + 1) == back);
    }
    if m.id == back {
        if slash >= 0 {
            assert(back.contains(back[slash]));
        }
        assert(m.id.skip(0) == back);
    }
}

/// The context window is as large as the number behind `--ctx-size` says, and 0 without one.
pub proof fn law_context_size_is_the_number(m: config::ModelView)
    ensures
        ({
            let size = display_of(
                m,
                Map::empty(),
                Seq::empty(),
                Set::empty(),
                Map::empty(),
            ).ctx_size;
            match config::arg_value(m.arguments, "--ctx-size"@) {
                Some(v) => match text::unsigned(v, 4294967295) {
                    Some(n) => size == n,
                    None => size == 0,
                },
                None => size == 0,
            }
        }),
        forall|running: Map<u16, u128>, alive: Seq<u16>, warming: Set<u16>, chosen: Map<Seq<char>, Seq<char>>|
            (#[trigger] display_of(m, running, alive, warming, chosen)).ctx_size == display_of(
                m,
                Map::empty(),
                Seq::empty(),
                Set::empty(),
                Map::empty(),
            ).ctx_size,
{
}

/// The line below the title tells how many servers run, the port and the timeout.
pub proof fn law_status_line(count: nat, port: u16, mins: u64)
    ensures
        status_line(count, port, mins) == text::decimal(count) + " running | Proxy :"@
            + text::decimal(port as nat) + " | Idle: "@ + text::decimal(mins as nat) + "m"@,
{
}

/// The models that run here are those of the shown that do, in their order; their ids and ports
/// are taken one for one.
pub proof fn law_owned_models_in_order(shown: Seq<DisplayView>, d: DisplayView)
    ensures
        owned_models(shown.push(d)) == (if d.owned {
            owned_models(shown).push(d)
        } else {
            owned_models(shown)
        }),
        owned_models(seq![]).len() == 0,
        ids(shown).len() == shown.len(),
        ports(shown).len() == shown.len(),
        forall|i: int| 0 <= i < shown.len() ==> #[trigger] ids(shown)[i] == shown[i].id,
        forall|i: int| 0 <= i < shown.len() ==> #[trigger] ports(shown)[i] == shown[i].port,
{
    reveal(Seq::filter);
    assert(shown.push(d).drop_last() == shown);
}

/// A model counts as up where the window shows it as running, here or elsewhere, and only there.
pub proof fn law_up_is_here_or_elsewhere(shown: Seq<DisplayView>, id: Seq<char>)
    ensures
        forall|i: int|
            0 <= i < shown.len() && (#[trigger] shown[i]).id == id && (shown[i].owned
                || shown[i].external) ==> is_up(shown, id),
        (forall|i: int|
            0 <= i < shown.len() && (#[trigger] shown[i]).id == id ==> !shown[i].owned
                && !shown[i].external) ==> !is_up(shown, id),
{
}

/// The view of a shown model says what the model holds.
pub proof fn law_display_view(d: ModelDisplay)
    ensures
        ({
            let v = d.deep_view();
            &&& v.id == d.id@ && v.port == d.port && v.display_name == d.display_name@
            &&& v.alias == d.alias@ && v.owned == d.owned && v.external == d.external
            &&& v.warming == d.warming && v.ctx_size == d.ctx_size && v.vision == d.vision
            &&& v.flash_attn == d.flash_attn && v.is_moe == d.is_moe
            &&& v.profiles == d.profiles@.map_values(|s: String| s@)
            &&& d.selected_profile matches Some(p) ==> v.selected_profile == Some(p@)
            &&& d.selected_profile is None ==> v.selected_profile is None
        }),
{
    assert(d.deep_view().profiles =~= d.profiles@.map_values(|s: String| s@));
}

} // verus!
