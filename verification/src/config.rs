//! What the user configures: the models, their servers and their sampling profiles.
use crate::json;
use crate::text;
use serde_json::Value;
use vstd::prelude::*;

verus! {

/// A sampling parameter that is no whole number: as it stands in a request, and as it is shown.
#[derive(Debug, Clone)]
pub struct FloatParam {
    pub json: Value,
    pub shown: String,
}

/// A named preset of sampling parameters.
#[derive(Debug, Clone)]
pub struct ModelProfile {
    pub name: String,
    pub temperature: Option<FloatParam>,
    pub top_p: Option<FloatParam>,
    pub top_k: Option<u32>,
    pub presence_penalty: Option<FloatParam>,
}

/// One model and the server that runs it.
#[derive(Debug, Clone)]
pub struct ModelEntry {
    pub id: String,
    pub port: u16,
    pub executable: String,
    pub name: Option<String>,
    pub alias: Option<String>,
    pub arguments: Vec<String>,
    pub profiles: Vec<ModelProfile>,
}

/// The whole configuration.
#[derive(Debug, Clone)]
pub struct AppConfig {
    pub out_port: Option<u16>,
    pub idle_timeout_seconds: u64,
    pub models: Vec<ModelEntry>,
}

/// What a `FloatParam` says.
pub struct FloatView {
    pub json: json::Json,
    pub shown: Seq<char>,
}

/// What a `ModelProfile` says.
pub struct ProfileView {
    pub name: Seq<char>,
    pub temperature: Option<FloatView>,
    pub top_p: Option<FloatView>,
    pub top_k: Option<u32>,
    pub presence_penalty: Option<FloatView>,
}

/// What a `ModelEntry` says.
pub struct ModelView {
    pub id: Seq<char>,
    pub port: u16,
    pub executable: Seq<char>,
    pub name: Option<Seq<char>>,
    pub alias: Option<Seq<char>>,
    pub arguments: Seq<Seq<char>>,
    pub profiles: Seq<ProfileView>,
}

impl DeepView for FloatParam {
    type V = FloatView;

    open spec fn deep_view(&self) -> FloatView {
        FloatView { json: json::json_of(self.json), shown: self.shown@ }
    }
}

impl DeepView for ModelProfile {
    type V = ProfileView;

    open spec fn deep_view(&self) -> ProfileView {
        ProfileView {
            name: self.name@,
            temperature: self.temperature.deep_view(),
            top_p: self.top_p.deep_view(),
            top_k: self.top_k,
            presence_penalty: self.presence_penalty.deep_view(),
        }
    }
}

impl DeepView for ModelEntry {
    type V = ModelView;

    open spec fn deep_view(&self) -> ModelView {
        ModelView {
            id: self.id@,
            port: self.port,
            executable: self.executable@,
            name: self.name.deep_view(),
            alias: self.alias.deep_view(),
            arguments: self.arguments.deep_view(),
            profiles: self.profiles.deep_view(),
        }
    }
}

// ── Defaults ────────────────────────────────────────────────────────────────

/// The port that the proxy listens on unless another is configured.
pub const DEFAULT_OUT_PORT: u16 = 8000;

/// The idle timeout unless another is configured: never.
pub fn default_idle() -> (secs: u64)
    ensures
        secs == 0,
{
    0
}

impl AppConfig {
    /// The port that the proxy listens on.
    pub fn proxy_port(&self) -> (port: u16)
        ensures
            port == (match self.out_port {
                Some(p) => p,
                None => 8000,
            }),
    {
        match self.out_port {
            Some(p) => p,
            None => DEFAULT_OUT_PORT,
        }
    }

    /// The idle timeout in whole minutes.
    pub fn idle_timeout_mins(&self) -> (mins: u64)
        ensures
            mins == self.idle_timeout_seconds / 60,
    {
        self.idle_timeout_seconds / 60
    }
}

// ── Finding the configuration ───────────────────────────────────────────────

/// The values that are there, in order.
pub open spec fn present<T>(values: Seq<Option<T>>) -> Seq<T>
    decreases values.len(),
{
    if values.len() == 0 {
        seq![]
    } else {
        match values.last() {
            Some(v) => present(values.drop_last()).push(v),
            None => present(values.drop_last()),
        }
    }
}

/// The directories to look for the configuration in, in the order of the search: that of the
/// program, the current one, and the one that the program was built in.
pub fn config_dirs<T>(exe_dir: Option<T>, current_dir: Option<T>, build_dir: Option<T>) -> (dirs: Vec<
    T,
>)
    ensures
        dirs@ == present(seq![exe_dir, current_dir, build_dir]),
{
    proof {
        reveal_with_fuel(present, 4);
        let all = seq![exe_dir, current_dir, build_dir];
        assert(all.drop_last() == seq![exe_dir, current_dir]);
        assert(seq![exe_dir, current_dir].drop_last() == seq![exe_dir]);
        assert(seq![exe_dir].drop_last() == Seq::<Option<T>>::empty());
    }
    let mut dirs: Vec<T> = Vec::new();
    if let Some(d) = exe_dir {
        dirs.push(d);
    }
    if let Some(d) = current_dir {
        dirs.push(d);
    }
    if let Some(d) = build_dir {
        dirs.push(d);
    }
    dirs
}

/// The directories to look in on macOS, in the order of the search: that of the user's
/// application support files, the resources of the application bundle, and the current one.
pub fn macos_config_dirs<T>(
    support_dir: Option<T>,
    resources_dir: Option<T>,
    current_dir: Option<T>,
) -> (dirs: Vec<T>)
    ensures
        dirs@ == present(seq![support_dir, resources_dir, current_dir]),
{
    config_dirs(support_dir, resources_dir, current_dir)
}

impl AppConfig {
    /// The configuration to use, of those that could be read, in the order of the search, one
    /// attempt for each directory: the first.
    pub fn load(attempts: Vec<Option<AppConfig>>) -> (res: Option<AppConfig>)
        ensures
            match res {
                Some(cfg) => present(attempts@).len() > 0 && cfg == present(attempts@)[0],
                None => present(attempts@).len() == 0,
            },
    {
        let ghost all = attempts@;
        let mut rest = attempts;
        let mut found: Option<AppConfig> = None;
        assert(all.take(all.len() as int) == all);
        assert(all.skip(all.len() as int).len() == 0);
        while rest.len() > 0
            invariant
                rest.len() <= all.len(),
                rest@ == all.take(rest.len() as int),
                match found {
                    Some(cfg) => present(all.skip(rest.len() as int)).len() > 0 && cfg == present(
                        all.skip(rest.len() as int),
                    )[0],
                    None => present(all.skip(rest.len() as int)).len() == 0,
                },
            decreases rest.len(),
        {
            let ghost n = rest.len() as int;
            let last = rest.pop();
            proof {
                lemma_present_front(all.skip(n - 1));
                assert(all.skip(n - 1).drop_first() == all.skip(n));
            }
            if let Some(Some(cfg)) = last {
                found = Some(cfg);
            }
        }
        assert(all.skip(0) == all);
        found
    }
}

/// `present`, taken apart at the front.
proof fn lemma_present_front<T>(values: Seq<Option<T>>)
    requires
        values.len() > 0,
    ensures
        present(values) == (match values[0] {
            Some(v) => seq![v] + present(values.drop_first()),
            None => present(values.drop_first()),
        }),
    decreases values.len(),
{
    let rest = values.drop_first();
    if values.len() == 1 {
        assert(present(values.drop_last()) == Seq::<T>::empty());
        assert(present(rest) == Seq::<T>::empty());
        assert(values.last() == values[0]);
        assert(present(values) =~= (match values[0] {
            Some(v) => seq![v] + present(rest),
            None => present(rest),
        }));
    } else {
        let front = values.drop_last();
        lemma_present_front(front);
        assert(front.drop_first() == rest.drop_last());
        assert(rest.last() == values.last());
        assert(present(rest) == (match values.last() {
            Some(v) => present(rest.drop_last()).push(v),
            None => present(rest.drop_last()),
        }));
        assert(present(values) =~= (match values[0] {
            Some(v) => seq![v] + present(rest),
            None => present(rest),
        }));
    }
}

/// What was found on disk of a configured executable.
pub struct ExeLookup {
    /// The path is absolute and the file is there.
    pub usable: bool,
    /// The path within the directory of the program, where the file is there.
    pub local: Option<String>,
}

/// The path to run: the configured one where it is usable, else the one beside the program, else
/// the configured one, for the system to search.
pub open spec fn resolved_exe(path: Seq<char>, lookup: ExeLookup) -> Seq<char> {
    match lookup.local {
        Some(local) if !lookup.usable => local@,
        _ => path,
    }
}

/// The path to run for the configured `path`.
pub fn resolve_exe(path: &str, lookup: &ExeLookup) -> (exe: String)
    ensures
        exe@ == resolved_exe(path@, *lookup),
{
    if lookup.usable {
        return path.to_string();
    }
    match &lookup.local {
        Some(local) => local.clone(),
        None => path.to_string(),
    }
}

// ── Models and profiles ─────────────────────────────────────────────────────

/// The place of the first model with the given id; the number of models where there is none.
pub open spec fn model_index(models: Seq<ModelView>, id: Seq<char>) -> nat
    decreases models.len(),
{
    if models.len() == 0 || models[0].id == id {
        0
    } else {
        1 + model_index(models.drop_first(), id)
    }
}

/// The first model with the given id.
pub open spec fn model_of(models: Seq<ModelView>, id: Seq<char>) -> Option<ModelView> {
    let i = model_index(models, id);
    if i < models.len() {
        Some(models[i as int])
    } else {
        None
    }
}

/// The first profile with the given name.
pub open spec fn profile_of(profiles: Seq<ProfileView>, name: Seq<char>) -> Option<ProfileView>
    decreases profiles.len(),
{
    if profiles.len() == 0 {
        None
    } else if profiles[0].name == name {
        Some(profiles[0])
    } else {
        profile_of(profiles.drop_first(), name)
    }
}

/// What `model_index` gives is the first place at which the id stands.
pub proof fn lemma_model_index(models: Seq<ModelView>, id: Seq<char>, i: int)
    requires
        0 <= i <= models.len(),
        forall|k: int| 0 <= k < i ==> (#[trigger] models[k]).id != id,
        i == models.len() || models[i].id == id,
    ensures
        model_index(models, id) == i,
    decreases models.len(),
{
    if i > 0 {
        let rest = models.drop_first();
        assert(models[0].id != id);
        assert forall|k: int| 0 <= k < i - 1 implies (#[trigger] rest[k]).id != id by {
            assert(rest[k] == models[k + 1]);
        }
        lemma_model_index(rest, id, i - 1);
    }
}

/// The first model with the given id.
pub fn find_model<'a>(models: &'a Vec<ModelEntry>, id: &str) -> (res: Option<&'a ModelEntry>)
    ensures
        res.deep_view() == model_of(models.deep_view(), id@),
{
    let mut i: usize = 0;
    let ghost all = models.deep_view();
    while i < models.len()
        invariant
            i <= models.len(),
            all == models.deep_view(),
            forall|k: int| 0 <= k < i ==> (#[trigger] all[k]).id != id@,
        decreases models.len() - i,
    {
        assert(all[i as int] == models@[i as int].deep_view());
        if text::same_text(models[i].id.as_str(), id) {
            proof {
                lemma_model_index(all, id@, i as int);
            }
            return Some(&models[i]);
        }
        i += 1;
    }
    proof {
        lemma_model_index(all, id@, i as int);
    }
    None
}

/// The first profile of `model` with the given name.
pub fn find_profile<'a>(model: &'a ModelEntry, profile_name: &str) -> (res: Option<&'a ModelProfile>)
    ensures
        res.deep_view() == profile_of(model.deep_view().profiles, profile_name@),
{
    let mut i: usize = 0;
    let ghost all = model.profiles.deep_view();
    assert(all.skip(0) == all);
    while i < model.profiles.len()
        invariant
            i <= model.profiles.len(),
            all == model.profiles.deep_view(),
            profile_of(all, profile_name@) == profile_of(all.skip(i as int), profile_name@),
        decreases model.profiles.len() - i,
    {
        assert(all.skip(i as int)[0] == model.profiles@[i as int].deep_view());
        assert(all.skip(i as int).drop_first() == all.skip(i + 1));
        if text::same_text(model.profiles[i].name.as_str(), profile_name) {
            return Some(&model.profiles[i]);
        }
        i += 1;
    }
    None
}

// ── Command-line arguments ──────────────────────────────────────────────────

/// The arguments that one line of text writes: its words, `{port}` standing for the port of the
/// server.
pub open spec fn line_args(line: Seq<char>, port: u16) -> Seq<Seq<char>> {
    text::words(line).map_values(
        |w: Seq<char>|
            if w == "{port}"@ {
                text::decimal(port as nat)
            } else {
                w
            },
    )
}

/// The arguments that one line of text writes.
pub fn arguments_of_line(line: &str, port: u16) -> (args: Vec<String>)
    ensures
        texts(args@) == line_args(line@, port),
{
    let chars = text::chars_of(line);
    let ws = text::words_of(chars.as_slice());
    let ghost all = line_args(line@, port);
    let mut args: Vec<String> = Vec::new();
    let mut i: usize = 0;
    assert(text::views(ws@).len() == ws@.len());
    while i < ws.len()
        invariant
            i <= ws.len(),
            text::views(ws@) == text::words(line@),
            all == line_args(line@, port),
            ws@.len() == all.len(),
            texts(args@) == all.take(i as int),
        decreases ws.len() - i,
    {
        let word = text::string_of(ws[i].as_slice());
        assert(word@ == text::words(line@)[i as int]);
        let arg = if text::same_text(word.as_str(), "{port}") {
            text::decimal_string(port as u64)
        } else {
            word
        };
        assert(arg@ == all[i as int]);
        assert(texts(args@.push(arg)) == texts(args@).push(arg@));
        assert(all.take(i + 1) == all.take(i as int).push(arg@));
        args.push(arg);
        i += 1;
    }
    assert(all.take(all.len() as int) == all);
    args
}

/// What follows the first `name` that something follows.
pub open spec fn arg_value(args: Seq<Seq<char>>, name: Seq<char>) -> Option<Seq<char>>
    decreases args.len(),
{
    if args.len() < 2 {
        None
    } else if args[0] == name {
        Some(args[1])
    } else {
        arg_value(args.drop_first(), name)
    }
}

/// The texts of a slice.
pub open spec fn texts(args: Seq<String>) -> Seq<Seq<char>> {
    args.map_values(|a: String| a@)
}

/// The argument after the first `name` that an argument follows.
pub fn get_arg_value(args: &[String], name: &str) -> (res: Option<String>)
    ensures
        res.deep_view() == arg_value(texts(args@), name@),
{
    let mut i: usize = 0;
    let ghost all = texts(args@);
    assert(all.skip(0) == all);
    while i < args.len() && args.len() - i > 1
        invariant
            i <= args.len(),
            all == texts(args@),
            arg_value(all, name@) == arg_value(all.skip(i as int), name@),
        decreases args.len() - i,
    {
        assert(all.skip(i as int)[0] == args@[i as int]@);
        assert(all.skip(i as int)[1] == args@[i + 1]@);
        assert(all.skip(i as int).drop_first() == all.skip(i + 1));
        if text::same_text(args[i].as_str(), name) {
            return Some(args[i + 1].clone());
        }
        i += 1;
    }
    None
}

/// Whether `name` is one of the arguments.
pub fn has_arg(args: &[String], name: &str) -> (res: bool)
    ensures
        res == texts(args@).contains(name@),
{
    let mut i: usize = 0;
    while i < args.len()
        invariant
            i <= args.len(),
            forall|k: int| 0 <= k < i ==> (#[trigger] args@[k])@ != name@,
        decreases args.len() - i,
    {
        if text::same_text(args[i].as_str(), name) {
            assert(texts(args@)[i as int] == name@);
            return true;
        }
        i += 1;
    }
    assert(!texts(args@).contains(name@)) by {
        if texts(args@).contains(name@) {
            let k = choose|k: int| 0 <= k < args@.len() && texts(args@)[k] == name@;
            assert(args@[k]@ == name@);
        }
    }
    false
}

// ── Laws ────────────────────────────────────────────────────────────────────

/// Of the places to look in, those that are there are kept, all of them and in their order.
pub proof fn law_present_places_are_kept<T>(values: Seq<Option<T>>, v: T)
    ensures
        present(Seq::<Option<T>>::empty()) == Seq::<T>::empty(),
        present(values.push(Some(v))) == present(values).push(v),
        present(values.push(None)) == present(values),
{
    assert(values.push(Some(v)).drop_last() == values);
    assert(values.push(None).drop_last() == values);
}

/// The first configuration that can be read is used: what cannot be read before it does not count,
/// and neither does what follows.
pub proof fn law_first_readable_is_used<T>(before: Seq<Option<T>>, v: T, after: Seq<Option<T>>)
    requires
        forall|i: int| 0 <= i < before.len() ==> (#[trigger] before[i]) is None,
    ensures
        present(before) == Seq::<T>::empty(),
        present(before + seq![Some(v)] + after).len() > 0,
        present(before + seq![Some(v)] + after)[0] == v,
    decreases before.len(),
{
    let all = before + seq![Some(v)] + after;
    if before.len() == 0 {
        assert(all[0] == Some(v));
        lemma_present_front(all);
    } else {
        let rest = before.drop_first();
        assert(before[0] is None);
        assert forall|i: int| 0 <= i < rest.len() implies (#[trigger] rest[i]) is None by {
            assert(rest[i] == before[i + 1]);
        }
        law_first_readable_is_used(rest, v, after);
        assert(all.drop_first() == rest + seq![Some(v)] + after);
        lemma_present_front(all);
        lemma_present_front(before);
    }
}

/// The path to run is the configured one where it is usable, or where nothing of that name stands
/// beside the program; else it is the one beside the program.
pub proof fn law_usable_path_comes_first(path: Seq<char>, lookup: ExeLookup)
    ensures
        lookup.usable ==> resolved_exe(path, lookup) == path,
        lookup.local is None ==> resolved_exe(path, lookup) == path,
        !lookup.usable ==> (lookup.local matches Some(local) ==> resolved_exe(path, lookup)
            == local@),
{
}

/// An id finds the first model that has exactly that id, and nothing where none has.
pub proof fn law_first_model_with_the_id(models: Seq<ModelView>, id: Seq<char>, i: int)
    requires
        0 <= i <= models.len(),
        forall|j: int| 0 <= j < i ==> (#[trigger] models[j]).id != id,
    ensures
        i < models.len() && models[i].id == id ==> model_of(models, id) == Some(models[i]),
        i == models.len() ==> model_of(models, id) is None,
        model_of(models, id) matches Some(m) ==> m.id == id && models.contains(m),
{
    if i == models.len() || models[i].id == id {
        lemma_model_index(models, id, i);
    }
    lemma_model_found(models, id);
}

/// Without a model of that id, `model_index` gives the number of models.
pub proof fn lemma_model_index_all(models: Seq<ModelView>, id: Seq<char>)
    ensures
        (forall|k: int| 0 <= k < models.len() ==> (#[trigger] models[k]).id != id) ==> model_index(
            models,
            id,
        ) == models.len(),
{
    if forall|k: int| 0 <= k < models.len() ==> (#[trigger] models[k]).id != id {
        lemma_model_index(models, id, models.len() as int);
    }
}

/// What `model_index` gives within the models has the id.
proof fn lemma_model_found(models: Seq<ModelView>, id: Seq<char>)
    ensures
        model_index(models, id) < models.len() ==> models[model_index(models, id) as int].id == id,
    decreases models.len(),
{
    if models.len() > 0 && models[0].id != id {
        lemma_model_found(models.drop_first(), id);
    }
}

/// A name finds the first profile that has exactly that name, and nothing where none has.
pub proof fn law_first_profile_with_the_name(profiles: Seq<ProfileView>, name: Seq<char>, i: int)
    requires
        0 <= i <= profiles.len(),
        forall|j: int| 0 <= j < i ==> (#[trigger] profiles[j]).name != name,
    ensures
        i < profiles.len() && profiles[i].name == name ==> profile_of(profiles, name) == Some(
            profiles[i],
        ),
        i == profiles.len() ==> profile_of(profiles, name) is None,
    decreases profiles.len(),
{
    if i > 0 {
        let rest = profiles.drop_first();
        assert(profiles[0].name != name);
        assert forall|j: int| 0 <= j < i - 1 implies (#[trigger] rest[j]).name != name by {
            assert(rest[j] == profiles[j + 1]);
        }
        law_first_profile_with_the_name(rest, name, i - 1);
    }
}

/// The value of an argument is what follows the first that has its name; without one, or where
/// nothing follows, it has none.
pub proof fn law_value_follows_its_name(args: Seq<Seq<char>>, name: Seq<char>, i: int)
    requires
        0 <= i <= args.len(),
        forall|j: int| 0 <= j < i ==> #[trigger] args[j] != name,
    ensures
        i + 1 < args.len() && args[i] == name ==> arg_value(args, name) == Some(args[i + 1]),
        i + 1 >= args.len() ==> arg_value(args, name) is None,
    decreases args.len(),
{
    if i > 0 && args.len() > 1 {
        let rest = args.drop_first();
        assert(args[0] != name);
        assert forall|j: int| 0 <= j < i - 1 implies #[trigger] rest[j] != name by {
            assert(rest[j] == args[j + 1]);
        }
        law_value_follows_its_name(rest, name, i - 1);
    }
}

/// A line of arguments is its words, one for one, the word `{port}` standing for the port.
pub proof fn law_line_is_its_words(line: Seq<char>, port: u16)
    ensures
        line_args(line, port).len() == text::words(line).len(),
        forall|i: int|
            0 <= i < text::words(line).len() ==> #[trigger] line_args(line, port)[i] == (if text::words(
                line,
            )[i] == "{port}"@ {
                text::decimal(port as nat)
            } else {
                text::words(line)[i]
            }),
{
}

/// The views of the configuration say what it holds, text for text.
pub proof fn law_configuration_views(m: ModelEntry, p: ModelProfile, args: Seq<String>, i: int)
    ensures
        ({
            let v = m.deep_view();
            &&& v.id == m.id@ && v.port == m.port && v.executable == m.executable@
            &&& m.name matches Some(name) ==> v.name == Some(name@)
            &&& m.name is None ==> v.name is None
            &&& m.alias matches Some(alias) ==> v.alias == Some(alias@)
            &&& m.alias is None ==> v.alias is None
            &&& v.arguments.len() == m.arguments@.len()
            &&& 0 <= i < m.arguments@.len() ==> v.arguments[i] == m.arguments@[i]@
            &&& v.profiles.len() == m.profiles@.len()
            &&& 0 <= i < m.profiles@.len() ==> v.profiles[i] == m.profiles@[i].deep_view()
        }),
        ({
            let v = p.deep_view();
            &&& v.name == p.name@ && v.top_k == p.top_k
            &&& p.temperature matches Some(f) ==> v.temperature == Some(
                FloatView { json: json::json_of(f.json), shown: f.shown@ },
            )
            &&& p.temperature is None ==> v.temperature is None
            &&& p.top_p matches Some(f) ==> v.top_p == Some(
                FloatView { json: json::json_of(f.json), shown: f.shown@ },
            )
            &&& p.top_p is None ==> v.top_p is None
            &&& p.presence_penalty matches Some(f) ==> v.presence_penalty == Some(
                FloatView { json: json::json_of(f.json), shown: f.shown@ },
            )
            &&& p.presence_penalty is None ==> v.presence_penalty is None
        }),
        texts(args).len() == args.len(),
        0 <= i < args.len() ==> texts(args)[i] == args[i]@,
{
}

} // verus!
