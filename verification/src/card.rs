//! The card of one model in the window.
//!
//! A sampling parameter in the arguments of a server is a number that may have a fraction; the
//! caller reads and prints it, and hands it over as text.
use crate::config;
use crate::config::{ModelEntry, ModelProfile};
use crate::dashboard;
use crate::dashboard::ModelDisplay;
use crate::manager::copy_texts;
use crate::text;
use vstd::prelude::*;
use vstd::string::*;

verus! {

// ── Status ──────────────────────────────────────────────────────────────────

/// The colour of a status.
#[derive(Clone, Copy, PartialEq, Eq, Structural, Debug)]
pub enum Tone {
    Green,
    Yellow,
    Gray,
}

/// How a model is doing, as its card tells it.
pub struct StatusView {
    pub text: Seq<char>,
    pub tone: Tone,
    pub dot: Seq<char>,
}

/// How a model is doing.
pub open spec fn status_of(d: dashboard::DisplayView) -> StatusView {
    if d.owned {
        StatusView { text: "Ready"@, tone: Tone::Green, dot: "●"@ }
    } else if d.external {
        StatusView { text: "External"@, tone: Tone::Yellow, dot: "●"@ }
    } else if d.warming {
        StatusView { text: "Warming"@, tone: Tone::Yellow, dot: "◐"@ }
    } else {
        StatusView { text: "Offline"@, tone: Tone::Gray, dot: "○"@ }
    }
}

/// The text, the colour and the dot of a status.
fn status(d: &ModelDisplay) -> (res: (&'static str, Tone, &'static str))
    ensures
        (StatusView { text: res.0@, tone: res.1, dot: res.2@ }) == status_of(d.deep_view()),
{
    if d.owned {
        ("Ready", Tone::Green, "●")
    } else if d.external {
        ("External", Tone::Yellow, "●")
    } else if d.warming {
        ("Warming", Tone::Yellow, "◐")
    } else {
        ("Offline", Tone::Gray, "○")
    }
}

// ── Badges ──────────────────────────────────────────────────────────────────

/// A small label with a colour and an explanation.
pub struct Badge {
    pub text: String,
    pub rgb: (u8, u8, u8),
    pub tooltip: String,
}

/// What a `Badge` says.
pub struct BadgeView {
    pub text: Seq<char>,
    pub rgb: (u8, u8, u8),
    pub tooltip: Seq<char>,
}

impl DeepView for Badge {
    type V = BadgeView;

    open spec fn deep_view(&self) -> BadgeView {
        BadgeView { text: self.text@, rgb: self.rgb, tooltip: self.tooltip@ }
    }
}

/// `item` alone where it applies, else nothing.
pub open spec fn only_if<T>(applies: bool, item: T) -> Seq<T> {
    if applies {
        seq![item]
    } else {
        seq![]
    }
}

/// The badges of a model: the size of its context window in units of 1024, and what it can do.
pub open spec fn badges_of(d: dashboard::DisplayView) -> Seq<BadgeView> {
    only_if(
        d.ctx_size > 0,
        BadgeView {
            text: text::decimal((d.ctx_size / 1024) as nat) + "K ctx"@,
            rgb: (70, 130, 180),
            tooltip: "Context window size"@,
        },
    ) + only_if(
        d.vision,
        BadgeView {
            text: "Vision"@,
            rgb: (60, 140, 80),
            tooltip: "Multimodal / vision support"@,
        },
    ) + only_if(
        d.flash_attn,
        BadgeView {
            text: "FlashAttn"@,
            rgb: (180, 130, 50),
            tooltip: "Flash attention enabled"@,
        },
    ) + only_if(
        d.is_moe,
        BadgeView { text: "MoE"@, rgb: (130, 100, 180), tooltip: "Mixture of Experts"@ },
    )
}

/// Puts a badge behind the others where it applies.
fn add_badge(
    badges: &mut Vec<Badge>,
    applies: bool,
    text: String,
    rgb: (u8, u8, u8),
    tooltip: &str,
)
    ensures
        final(badges).deep_view() == old(badges).deep_view() + only_if(
            applies,
            BadgeView { text: text@, rgb, tooltip: tooltip@ },
        ),
{
    let ghost before = badges.deep_view();
    if applies {
        badges.push(Badge { text, rgb, tooltip: tooltip.to_string() });
    }
    assert(badges.deep_view() =~= before + only_if(
        applies,
        BadgeView { text: text@, rgb, tooltip: tooltip@ },
    ));
}

/// The badges of a model.
fn badges(d: &ModelDisplay) -> (res: Vec<Badge>)
    ensures
        res.deep_view() == badges_of(d.deep_view()),
{
    let mut res: Vec<Badge> = Vec::new();
    assert(res.deep_view() =~= Seq::<BadgeView>::empty());
    let size = text::decimal_string((d.ctx_size / 1024) as u64).concat("K ctx");
    add_badge(&mut res, d.ctx_size > 0, size, (70, 130, 180), "Context window size");
    add_badge(
        &mut res,
        d.vision,
        "Vision".to_string(),
        (60, 140, 80),
        "Multimodal / vision support",
    );
    add_badge(
        &mut res,
        d.flash_attn,
        "FlashAttn".to_string(),
        (180, 130, 50),
        "Flash attention enabled",
    );
    add_badge(&mut res, d.is_moe, "MoE".to_string(), (130, 100, 180), "Mixture of Experts");
    assert(res.deep_view() =~= badges_of(d.deep_view()));
    res
}

// ── Profiles ────────────────────────────────────────────────────────────────

/// The profile that a card shows: the chosen one, or else the first. Without profiles none is.
pub open spec fn current_profile(d: dashboard::DisplayView) -> Option<Seq<char>> {
    if d.profiles.len() == 0 {
        None
    } else {
        match d.selected_profile {
            Some(p) => Some(p),
            None => Some(d.profiles[0]),
        }
    }
}

/// The profile that a card shows.
fn current(d: &ModelDisplay) -> (res: Option<String>)
    ensures
        res.deep_view() == current_profile(d.deep_view()),
{
    if d.profiles.len() == 0 {
        return None;
    }
    match &d.selected_profile {
        Some(p) => Some(p.clone()),
        None => {
            assert(config::texts(d.profiles@)[0] == d.profiles@[0]@);
            Some(d.profiles[0].clone())
        },
    }
}

/// The profile that the user picked, by what the selector shows after it was open: one other than
/// the current.
pub fn picked_profile(open: bool, current: &str, selected: String) -> (res: Option<String>)
    ensures
        res.deep_view() == (if open && selected@ != current@ {
            Some(selected@)
        } else {
            None
        }),
{
    if open && !text::same_text(selected.as_str(), current) {
        Some(selected)
    } else {
        None
    }
}

// ── Sampling parameters ─────────────────────────────────────────────────────

/// Those sampling parameters in the arguments of a server that may have a fraction, as texts.
pub struct ArgTexts {
    pub temp: Option<String>,
    pub top_p: Option<String>,
    pub presence_penalty: Option<String>,
}

/// What an `ArgTexts` says.
pub struct ArgTextsView {
    pub temp: Option<Seq<char>>,
    pub top_p: Option<Seq<char>>,
    pub presence_penalty: Option<Seq<char>>,
}

impl DeepView for ArgTexts {
    type V = ArgTextsView;

    open spec fn deep_view(&self) -> ArgTextsView {
        ArgTextsView {
            temp: self.temp.deep_view(),
            top_p: self.top_p.deep_view(),
            presence_penalty: self.presence_penalty.deep_view(),
        }
    }
}

/// The arguments that set sampling parameters that may have a fraction, as they are written.
pub fn float_args(m: &ModelEntry) -> (res: ArgTexts)
    ensures
        res.deep_view() == (ArgTextsView {
            temp: config::arg_value(m.deep_view().arguments, "--temp"@),
            top_p: config::arg_value(m.deep_view().arguments, "--top-p"@),
            presence_penalty: config::arg_value(m.deep_view().arguments, "--presence-penalty"@),
        }),
{
    assert(m.arguments.deep_view() =~= config::texts(m.arguments@));
    let args = m.arguments.as_slice();
    ArgTexts {
        temp: config::get_arg_value(args, "--temp"),
        top_p: config::get_arg_value(args, "--top-p"),
        presence_penalty: config::get_arg_value(args, "--presence-penalty"),
    }
}

/// A value behind its label, where there is a value.
pub open spec fn labelled(label: Seq<char>, value: Option<Seq<char>>) -> Seq<Seq<char>> {
    match value {
        Some(v) => seq![label + v],
        None => seq![],
    }
}

/// Sampling parameters behind their labels.
pub open spec fn parts_of(
    temp: Option<Seq<char>>,
    top_p: Option<Seq<char>>,
    top_k: Option<nat>,
    penalty: Option<Seq<char>>,
) -> Seq<Seq<char>> {
    labelled("temp="@, temp) + labelled("top_p="@, top_p) + labelled(
        "top_k="@,
        match top_k {
            Some(k) => Some(text::decimal(k)),
            None => None,
        },
    ) + labelled("pp="@, penalty)
}

/// A parameter as it is shown.
pub open spec fn shown(p: Option<config::FloatView>) -> Option<Seq<char>> {
    match p {
        Some(f) => Some(f.shown),
        None => None,
    }
}

/// The parameters of a profile behind their labels.
pub open spec fn profile_parts(p: config::ProfileView) -> Seq<Seq<char>> {
    parts_of(
        shown(p.temperature),
        shown(p.top_p),
        match p.top_k {
            Some(k) => Some(k as nat),
            None => None,
        },
        shown(p.presence_penalty),
    )
}

/// The parameters in the arguments of a server behind their labels.
pub open spec fn argument_parts(m: config::ModelView, texts: ArgTextsView) -> Seq<Seq<char>> {
    parts_of(
        texts.temp,
        texts.top_p,
        match config::arg_value(m.arguments, "--top-k"@) {
            Some(v) => text::unsigned(v, u32::MAX as nat),
            None => None,
        },
        texts.presence_penalty,
    )
}

/// The parameters that a card shows: those of the profile that it shows or, for a model without
/// profiles, those in the arguments of its server.
pub open spec fn parts_shown(
    d: dashboard::DisplayView,
    models: Seq<config::ModelView>,
    texts: ArgTextsView,
) -> Seq<Seq<char>> {
    match (current_profile(d), config::model_of(models, d.id)) {
        (Some(name), Some(m)) => match config::profile_of(m.profiles, name) {
            Some(p) => profile_parts(p),
            None => seq![],
        },
        (None, Some(m)) => argument_parts(m, texts),
        (_, None) => seq![],
    }
}

/// `parts`, with `sep` between each two.
pub open spec fn join(parts: Seq<Seq<char>>, sep: Seq<char>) -> Seq<char>
    decreases parts.len(),
{
    if parts.len() == 0 {
        seq![]
    } else if parts.len() == 1 {
        parts[0]
    } else {
        join(parts.drop_last(), sep) + sep + parts.last()
    }
}

/// Puts a value behind its label and that behind the other parts.
fn add_part(parts: &mut Vec<String>, label: &str, value: &Option<String>)
    ensures
        config::texts(final(parts)@) == config::texts(old(parts)@) + labelled(
            label@,
            value.deep_view(),
        ),
{
    let ghost before = config::texts(parts@);
    if let Some(v) = value {
        let part = label.to_string().concat(v.as_str());
        parts.push(part);
    }
    assert(config::texts(parts@) =~= before + labelled(label@, value.deep_view()));
}

/// Sampling parameters behind their labels.
fn labelled_parts(
    temp: &Option<String>,
    top_p: &Option<String>,
    top_k: Option<u64>,
    penalty: &Option<String>,
) -> (res: Vec<String>)
    ensures
        config::texts(res@) == parts_of(
            temp.deep_view(),
            top_p.deep_view(),
            match top_k {
                Some(k) => Some(k as nat),
                None => None,
            },
            penalty.deep_view(),
        ),
{
    let mut parts: Vec<String> = Vec::new();
    let k = match top_k {
        Some(k) => Some(text::decimal_string(k)),
        None => None,
    };
    assert(config::texts(parts@) =~= Seq::<Seq<char>>::empty());
    add_part(&mut parts, "temp=", temp);
    add_part(&mut parts, "top_p=", top_p);
    add_part(&mut parts, "top_k=", &k);
    add_part(&mut parts, "pp=", penalty);
    assert(config::texts(parts@) =~= parts_of(
        temp.deep_view(),
        top_p.deep_view(),
        match top_k {
            Some(k) => Some(k as nat),
            None => None,
        },
        penalty.deep_view(),
    ));
    parts
}

/// A parameter as it is shown.
fn shown_text(p: &Option<config::FloatParam>) -> (res: Option<String>)
    ensures
        res.deep_view() == shown(p.deep_view()),
{
    match p {
        Some(f) => Some(f.shown.clone()),
        None => None,
    }
}

/// The parameters of a profile behind their labels.
fn parts_of_profile(p: &ModelProfile) -> (res: Vec<String>)
    ensures
        config::texts(res@) == profile_parts(p.deep_view()),
{
    let top_k: Option<u64> = match p.top_k {
        Some(k) => Some(k as u64),
        None => None,
    };
    labelled_parts(
        &shown_text(&p.temperature),
        &shown_text(&p.top_p),
        top_k,
        &shown_text(&p.presence_penalty),
    )
}

/// The parameters in the arguments of a server behind their labels.
fn parts_of_arguments(m: &ModelEntry, texts: &ArgTexts) -> (res: Vec<String>)
    ensures
        config::texts(res@) == argument_parts(m.deep_view(), texts.deep_view()),
{
    assert(m.arguments.deep_view() =~= config::texts(m.arguments@));
    let top_k: Option<u64> = dashboard::whole_arg(
        m.arguments.as_slice(),
        "--top-k",
        u32::MAX as u64,
    );
    labelled_parts(&texts.temp, &texts.top_p, top_k, &texts.presence_penalty)
}

/// The parameters that a card shows.
fn parts(d: &ModelDisplay, models: &Vec<ModelEntry>, texts: &ArgTexts) -> (res: Vec<String>)
    ensures
        config::texts(res@) == parts_shown(d.deep_view(), models.deep_view(), texts.deep_view()),
{
    let none: Vec<String> = Vec::new();
    assert(config::texts(none@) =~= Seq::<Seq<char>>::empty());
    match config::find_model(models, d.id.as_str()) {
        None => none,
        Some(m) => match current(d) {
            Some(name) => match config::find_profile(m, name.as_str()) {
                Some(p) => parts_of_profile(p),
                None => none,
            },
            None => parts_of_arguments(m, texts),
        },
    }
}

/// `parts`, with `sep` between each two.
fn joined(parts: &Vec<String>, sep: &str) -> (res: String)
    ensures
        res@ == join(config::texts(parts@), sep@),
{
    let mut res = String::new();
    let ghost all = config::texts(parts@);
    let mut i: usize = 0;
    assert(all.take(0).len() == 0);
    assert(res@ =~= join(all.take(0), sep@));
    while i < parts.len()
        invariant
            i <= parts.len(),
            all == config::texts(parts@),
            res@ == join(all.take(i as int), sep@),
        decreases parts.len() - i,
    {
        proof {
            assert(all.take(i + 1).drop_last() == all.take(i as int));
            assert(all.take(i + 1).last() == parts@[i as int]@);
        }
        if i > 0 {
            res.append(sep);
            res.append(parts[i].as_str());
        } else {
            assert(all.take(1)[0] == parts@[0]@);
            res.append(parts[i].as_str());
            assert(res@ =~= parts@[0]@);
        }
        i += 1;
    }
    assert(all.take(all.len() as int) == all);
    res
}

// ── The card ────────────────────────────────────────────────────────────────

/// What the selector of the profile of a model shows.
pub struct Selector {
    pub id: String,
    pub current: String,
    pub choices: Vec<String>,
}

/// What a `Selector` says.
pub struct SelectorView {
    pub id: Seq<char>,
    pub current: Seq<char>,
    pub choices: Seq<Seq<char>>,
}

impl DeepView for Selector {
    type V = SelectorView;

    open spec fn deep_view(&self) -> SelectorView {
        SelectorView {
            id: self.id@,
            current: self.current@,
            choices: config::texts(self.choices@),
        }
    }
}

/// Everything that the card of a model shows.
pub struct Card {
    pub dot: String,
    pub tone: Tone,
    pub title: String,
    pub alias: Option<String>,
    /// Whether the sign for images stands behind the title.
    pub camera: bool,
    pub status: String,
    pub port: String,
    pub badges: Vec<Badge>,
    pub can_warmup: bool,
    pub can_unload: bool,
    pub unload_label: String,
    pub selector: Option<Selector>,
    pub params: Option<String>,
}

/// What a `Card` says.
pub struct CardView {
    pub dot: Seq<char>,
    pub tone: Tone,
    pub title: Seq<char>,
    pub alias: Option<Seq<char>>,
    pub camera: bool,
    pub status: Seq<char>,
    pub port: Seq<char>,
    pub badges: Seq<BadgeView>,
    pub can_warmup: bool,
    pub can_unload: bool,
    pub unload_label: Seq<char>,
    pub selector: Option<SelectorView>,
    pub params: Option<Seq<char>>,
}

impl DeepView for Card {
    type V = CardView;

    open spec fn deep_view(&self) -> CardView {
        CardView {
            dot: self.dot@,
            tone: self.tone,
            title: self.title@,
            alias: self.alias.deep_view(),
            camera: self.camera,
            status: self.status@,
            port: self.port@,
            badges: self.badges.deep_view(),
            can_warmup: self.can_warmup,
            can_unload: self.can_unload,
            unload_label: self.unload_label@,
            selector: self.selector.deep_view(),
            params: self.params.deep_view(),
        }
    }
}

/// The card of a model.
pub open spec fn card_of(
    d: dashboard::DisplayView,
    models: Seq<config::ModelView>,
    texts: ArgTextsView,
) -> CardView {
    let status = status_of(d);
    let parts = parts_shown(d, models, texts);
    CardView {
        dot: status.dot,
        tone: status.tone,
        title: d.display_name,
        alias: if d.alias.len() > 0 {
            Some("("@ + d.alias + ")"@)
        } else {
            None
        },
        camera: d.vision,
        status: " "@ + status.text,
        port: ":"@ + text::decimal(d.port as nat),
        badges: badges_of(d),
        can_warmup: !d.owned && !d.external && !d.warming,
        can_unload: d.owned || d.external,
        unload_label: if d.external {
            "Unload external"@
        } else {
            "Unload"@
        },
        selector: match current_profile(d) {
            Some(p) => Some(
                SelectorView {
                    id: "profile_"@ + text::decimal(d.port as nat),
                    current: p,
                    choices: d.profiles,
                },
            ),
            None => None,
        },
        params: if parts.len() > 0 {
            Some(join(parts, " · "@))
        } else {
            None
        },
    }
}

/// The card of a model.
pub fn model_card(model: &ModelDisplay, models_cfg: &Vec<ModelEntry>, texts: &ArgTexts) -> (card:
    Card)
    ensures
        card.deep_view() == card_of(
            model.deep_view(),
            models_cfg.deep_view(),
            texts.deep_view(),
        ),
{
    let (status_text, tone, dot) = status(model);
    let port = text::decimal_string(model.port as u64);
    let alias_chars = text::chars_of(model.alias.as_str());
    let alias = if alias_chars.len() > 0 {
        Some("(".to_string().concat(model.alias.as_str()).concat(")"))
    } else {
        None
    };
    let selector = match current(model) {
        Some(current) => Some(
            Selector {
                id: "profile_".to_string().concat(port.as_str()),
                current,
                choices: copy_texts(&model.profiles),
            },
        ),
        None => None,
    };
    let shown_parts = parts(model, models_cfg, texts);
    assert(shown_parts@.len() == config::texts(shown_parts@).len());
    let params = if shown_parts.len() > 0 {
        Some(joined(&shown_parts, " · "))
    } else {
        None
    };
    Card {
        dot: dot.to_string(),
        tone,
        title: model.display_name.clone(),
        alias,
        camera: model.vision,
        status: " ".to_string().concat(status_text),
        port: ":".to_string().concat(port.as_str()),
        badges: badges(model),
        can_warmup: !model.owned && !model.external && !model.warming,
        can_unload: model.owned || model.external,
        unload_label: if model.external {
            "Unload external".to_string()
        } else {
            "Unload".to_string()
        },
        selector,
        params,
    }
}

/// A card offers to start a model or to unload it, or neither while it is warming, but never
/// both.
pub proof fn law_one_button_at_most(
    d: dashboard::DisplayView,
    models: Seq<config::ModelView>,
    texts: ArgTextsView,
)
    ensures
        ({
            let card = card_of(d, models, texts);
            &&& !(card.can_warmup && card.can_unload)
            &&& card.can_warmup || card.can_unload || d.warming
            &&& card.can_warmup <==> status_of(d).text == "Offline"@
        }),
{
    reveal_strlit("Ready");
    reveal_strlit("External");
    reveal_strlit("Warming");
    reveal_strlit("Offline");
    assert("Ready"@.len() == 5 && "External"@.len() == 8);
    assert("Warming"@[0] != "Offline"@[0]);
}

// ── Laws ────────────────────────────────────────────────────────────────────

/// How a model is doing: ready where it was started here, external where it runs elsewhere,
/// warming where it is being started, and offline otherwise, each with its colour and dot.
pub proof fn law_status_tells_how_it_is_doing(
    d: dashboard::DisplayView,
    models: Seq<config::ModelView>,
    texts: ArgTextsView,
)
    ensures
        ({
            let card = card_of(d, models, texts);
            &&& d.owned ==> card.status == " "@ + "Ready"@ && card.tone == Tone::Green && card.dot
                == "●"@
            &&& !d.owned && d.external ==> card.status == " "@ + "External"@ && card.tone
                == Tone::Yellow && card.dot == "●"@
            &&& !d.owned && !d.external && d.warming ==> card.status == " "@ + "Warming"@
                && card.tone == Tone::Yellow && card.dot == "◐"@
            &&& !d.owned && !d.external && !d.warming ==> card.status == " "@ + "Offline"@
                && card.tone == Tone::Gray && card.dot == "○"@
        }),
{
}

/// What a card says of its model besides: its title, its alias in brackets where it has one, its
/// port, the sign for images, and its buttons.
pub proof fn law_card_shows_its_model(
    d: dashboard::DisplayView,
    models: Seq<config::ModelView>,
    texts: ArgTextsView,
)
    ensures
        ({
            let card = card_of(d, models, texts);
            &&& card.title == d.display_name
            &&& d.alias.len() > 0 ==> card.alias == Some("("@ + d.alias + ")"@)
            &&& d.alias.len() == 0 ==> card.alias is None
            &&& card.port == ":"@ + text::decimal(d.port as nat)
            &&& card.camera == d.vision
            &&& config::model_of(models, d.id) is None ==> card.params is None
            &&& card.can_warmup <==> !d.owned && !d.external && !d.warming
            &&& card.can_unload <==> d.owned || d.external
            &&& card.unload_label == (if d.external {
                "Unload external"@
            } else {
                "Unload"@
            })
        }),
{
}

/// The badges of a card, in their order, each where it applies.
pub proof fn law_badges_of_a_card(
    d: dashboard::DisplayView,
    models: Seq<config::ModelView>,
    texts: ArgTextsView,
)
    ensures
        ({
            let size = BadgeView {
                text: text::decimal((d.ctx_size / 1024) as nat) + "K ctx"@,
                rgb: (70, 130, 180),
                tooltip: "Context window size"@,
            };
            let vision = BadgeView {
                text: "Vision"@,
                rgb: (60, 140, 80),
                tooltip: "Multimodal / vision support"@,
            };
            let flash = BadgeView {
                text: "FlashAttn"@,
                rgb: (180, 130, 50),
                tooltip: "Flash attention enabled"@,
            };
            let moe = BadgeView {
                text: "MoE"@,
                rgb: (130, 100, 180),
                tooltip: "Mixture of Experts"@,
            };
            let none = Seq::<BadgeView>::empty();
            let a = if d.ctx_size > 0 {
                none.push(size)
            } else {
                none
            };
            let b = if d.vision {
                a.push(vision)
            } else {
                a
            };
            let c = if d.flash_attn {
                b.push(flash)
            } else {
                b
            };
            card_of(d, models, texts).badges == (if d.is_moe {
                c.push(moe)
            } else {
                c
            })
        }),
{
}

/// A model with profiles has a selector with all of them, which shows the chosen one, or the first
/// where none is chosen; a model without profiles has none.
pub proof fn law_selector_shows_the_choice(
    d: dashboard::DisplayView,
    models: Seq<config::ModelView>,
    texts: ArgTextsView,
)
    ensures
        ({
            let selector = card_of(d, models, texts).selector;
            &&& d.profiles.len() == 0 <==> selector is None
            &&& selector matches Some(s) ==> {
                &&& s.choices == d.profiles
                &&& s.id == "profile_"@ + text::decimal(d.port as nat)
                &&& d.selected_profile matches Some(p) ==> s.current == p
                &&& d.selected_profile is None ==> s.current == d.profiles[0]
            }
        }),
{
}

/// A card shows the parameters of the profile that it shows or, for a model without profiles, those
/// in the arguments of its server, each behind its label and one behind the other; where there are
/// none it has no such line.
pub proof fn law_parameters_of_a_card(
    d: dashboard::DisplayView,
    models: Seq<config::ModelView>,
    texts: ArgTextsView,
    m: config::ModelView,
    name: Seq<char>,
)
    requires
        config::model_of(models, d.id) == Some(m),
        d.selected_profile matches Some(chosen) ==> name == chosen,
        d.selected_profile is None && d.profiles.len() > 0 ==> name == d.profiles[0],
    ensures
        ({
            let line = |parts: Seq<Seq<char>>|
                if parts.len() > 0 {
                    Some(join(parts, " · "@))
                } else {
                    None
                };
            let params = card_of(d, models, texts).params;
            &&& d.profiles.len() == 0 ==> params == line(
                with_label("temp="@, texts.temp) + with_label("top_p="@, texts.top_p) + with_label(
                    "top_k="@,
                    match config::arg_value(m.arguments, "--top-k"@) {
                        Some(v) => match text::unsigned(v, 4294967295) {
                            Some(n) => Some(text::decimal(n)),
                            None => None,
                        },
                        None => None,
                    },
                ) + with_label("pp="@, texts.presence_penalty),
            )
            &&& d.profiles.len() > 0 ==> match config::profile_of(m.profiles, name) {
                Some(p) => params == line(
                    with_label("temp="@, text_of(p.temperature)) + with_label(
                        "top_p="@,
                        text_of(p.top_p),
                    ) + with_label(
                        "top_k="@,
                        match p.top_k {
                            Some(k) => Some(text::decimal(k as nat)),
                            None => None,
                        },
                    ) + with_label("pp="@, text_of(p.presence_penalty)),
                ),
                None => params is None,
            }
        }),
{
}

/// A value behind its label, alone, where there is a value.
pub open spec fn with_label(label: Seq<char>, value: Option<Seq<char>>) -> Seq<Seq<char>> {
    if value is Some {
        Seq::<Seq<char>>::empty().push(label + value->0)
    } else {
        Seq::<Seq<char>>::empty()
    }
}

/// A parameter of a profile as it is shown.
pub open spec fn text_of(p: Option<config::FloatView>) -> Option<Seq<char>> {
    if p is Some {
        Some((p->0).shown)
    } else {
        None
    }
}

/// Joining puts the separator between each two parts, and nothing else.
pub proof fn law_join_puts_the_separator_between(
    parts: Seq<Seq<char>>,
    part: Seq<char>,
    sep: Seq<char>,
)
    ensures
        join(seq![], sep).len() == 0,
        join(seq![part], sep) == part,
        parts.len() > 0 ==> join(parts.push(part), sep) == join(parts, sep) + sep + part,
{
    assert(parts.push(part).drop_last() == parts);
}

} // verus!
