//! The JSON body of a request: which model it asks for, and with which profile.
use crate::config;
use crate::config::{FloatParam, ModelProfile};
use crate::json;
use crate::text;
use serde_json::{Map as JsonMap, Value};
use vstd::prelude::*;

verus! {

// ── The model that a request asks for ───────────────────────────────────────

/// The model that a body names: its member `model`, where that is a text.
pub open spec fn model_field(body: json::Json) -> Option<Seq<char>> {
    match body {
        json::Json::Object(m) => if m.contains_key("model"@) {
            match m["model"@] {
                json::Json::Text(s) => Some(s),
                _ => None,
            }
        } else {
            None
        },
        _ => None,
    }
}

/// The model that the bytes of a body name.
pub open spec fn requested(body: Seq<u8>) -> Option<Seq<char>> {
    if body.len() == 0 {
        None
    } else {
        match json::parsed(body) {
            Some(j) => model_field(j),
            None => None,
        }
    }
}

/// The id of the model in a requested name: what stands before the last slash, or all of it.
pub open spec fn base_id(name: Seq<char>) -> Seq<char> {
    let slash = text::find_last(name, '/');
    if slash >= 0 {
        name.take(slash)
    } else {
        name
    }
}

/// The profile in a requested name: what stands behind the last slash.
pub open spec fn profile_name(name: Seq<char>) -> Option<Seq<char>> {
    let slash = text::find_last(name, '/');
    if slash >= 0 {
        Some(name.skip(slash + 1))
    } else {
        None
    }
}

/// The model that a parsed body names.
pub fn model_of_value(body: &Value) -> (res: Option<String>)
    ensures
        res.deep_view() == model_field(json::json_of(*body)),
{
    match json::member(body, "model") {
        Some(v) => match v.as_str() {
            Some(s) => Some(s.to_string()),
            None => None,
        },
        None => None,
    }
}

/// The model that a body names.
pub fn requested_model(body: &[u8]) -> (res: Option<String>)
    ensures
        res.deep_view() == requested(body@),
{
    if body.len() == 0 {
        return None;
    }
    match json::parse(body) {
        Ok(v) => model_of_value(&v),
        Err(_) => None,
    }
}

/// The id and the profile in a requested name.
pub fn split_model_name(name: &str) -> (res: (String, Option<String>))
    ensures
        res.0@ == base_id(name@),
        res.1.deep_view() == profile_name(name@),
{
    let chars = text::chars_of(name);
    match text::rfind_char(chars.as_slice(), '/') {
        Some(slash) => {
            let base = text::slice_of(chars.as_slice(), 0, slash);
            let profile = text::slice_of(chars.as_slice(), slash + 1, chars.len());
            assert(base@ == name@.take(slash as int));
            assert(profile@ == name@.skip(slash + 1));
            (text::string_of(base.as_slice()), Some(text::string_of(profile.as_slice())))
        },
        None => (name.to_string(), None),
    }
}

/// A model id and, behind a slash, a profile whose name holds none make a name that splits into
/// that id and that profile.
pub proof fn law_named_profile_is_found(id: Seq<char>, profile: Seq<char>)
    requires
        !profile.contains('/'),
    ensures
        base_id(id + seq!['/'] + profile) == id,
        profile_name(id + seq!['/'] + profile) == Some(profile),
{
    let name = id + seq!['/'] + profile;
    text::lemma_find_last(name, '/');
    let slash = text::find_last(name, '/');
    assert(name[id.len() as int] == '/');
    if slash > id.len() {
        assert(profile[slash - id.len() - 1] == '/');
    }
    assert(name.take(slash) == id);
    assert(name.skip(slash + 1) == profile);
}

/// A name without a slash is all id and names no profile.
pub proof fn law_plain_id_has_no_profile(id: Seq<char>)
    requires
        !id.contains('/'),
    ensures
        base_id(id) == id,
        profile_name(id) is None,
{
    text::lemma_find_last(id, '/');
}

// ── The parameters of a profile ─────────────────────────────────────────────

/// The members of a body, with `key` set to `value` where there is a value and no such member.
pub open spec fn with_default(
    m: Map<Seq<char>, json::Json>,
    key: Seq<char>,
    value: Option<json::Json>,
) -> Map<Seq<char>, json::Json> {
    match value {
        Some(v) if !m.contains_key(key) => m.insert(key, v),
        _ => m,
    }
}

/// A parameter as it stands in a request.
pub open spec fn float_json(p: Option<config::FloatView>) -> Option<json::Json> {
    match p {
        Some(f) => Some(f.json),
        None => None,
    }
}

/// A parameter as it stands in a request.
pub open spec fn whole_json(p: Option<u32>) -> Option<json::Json> {
    match p {
        Some(n) => Some(json::Json::Number(text::decimal(n as nat))),
        None => None,
    }
}

/// The members of a body, with those parameters of the profile that the body does not set.
pub open spec fn with_profile(
    m: Map<Seq<char>, json::Json>,
    p: config::ProfileView,
) -> Map<Seq<char>, json::Json> {
    let a = with_default(m, "temperature"@, float_json(p.temperature));
    let b = with_default(a, "top_p"@, float_json(p.top_p));
    let c = with_default(b, "top_k"@, whole_json(p.top_k));
    with_default(c, "presence_penalty"@, float_json(p.presence_penalty))
}

/// The parameter of a profile that goes by the name `key`.
pub open spec fn parameter(p: config::ProfileView, key: Seq<char>) -> Option<json::Json> {
    if key == "temperature"@ {
        float_json(p.temperature)
    } else if key == "top_p"@ {
        float_json(p.top_p)
    } else if key == "top_k"@ {
        whole_json(p.top_k)
    } else if key == "presence_penalty"@ {
        float_json(p.presence_penalty)
    } else {
        None
    }
}

/// A body with the parameters of a profile. Only an object has any.
pub open spec fn profiled(body: json::Json, p: config::ProfileView) -> json::Json {
    match body {
        json::Json::Object(m) => json::Json::Object(with_profile(m, p)),
        _ => body,
    }
}

/// The bytes of a body with the parameters of a profile. A body that is no JSON stays as it is.
pub open spec fn profiled_bytes(body: Seq<u8>, p: config::ProfileView) -> Seq<u8> {
    match json::parsed(body) {
        Some(j) => json::compact_bytes(profiled(j, p)),
        None => body,
    }
}

/// Sets the member `key` where there is a parameter and no such member.
fn set_float(obj: &mut JsonMap<String, Value>, key: &str, param: &Option<FloatParam>)
    ensures
        json::members(*final(obj)) == with_default(
            json::members(*old(obj)),
            key@,
            float_json(param.deep_view()),
        ),
{
    if let Some(p) = param {
        if !json::has_member(obj, key) {
            let _ = obj.insert(key.to_string(), p.json.clone());
        }
    }
}

/// Sets the member `key` where there is a parameter and no such member.
fn set_whole(obj: &mut JsonMap<String, Value>, key: &str, param: Option<u32>)
    ensures
        json::members(*final(obj)) == with_default(
            json::members(*old(obj)),
            key@,
            whole_json(param),
        ),
{
    if let Some(n) = param {
        if !json::has_member(obj, key) {
            let _ = obj.insert(key.to_string(), json::number_value(n));
        }
    }
}

/// Gives a parsed body those parameters of the profile that it does not set.
pub fn apply_profile(body: &mut Value, profile: &ModelProfile)
    ensures
        json::json_of(*final(body)) == profiled(json::json_of(*old(body)), profile.deep_view()),
{
    if let Some(obj) = body.as_object_mut() {
        set_float(obj, "temperature", &profile.temperature);
        set_float(obj, "top_p", &profile.top_p);
        set_whole(obj, "top_k", profile.top_k);
        set_float(obj, "presence_penalty", &profile.presence_penalty);
    }
}

/// Whether no parameter of a profile is an array or an object.
pub open spec fn flat_profile(p: config::ProfileView) -> bool {
    forall|k: Seq<char>| #[trigger]
        parameter(p, k) matches Some(v) ==> !(v is Array) && !(v is Object)
}

/// The parameters of a profile nest a body no deeper.
proof fn lemma_profile_keeps_nesting(body: json::Json, p: config::ProfileView, depth: nat)
    requires
        json::within(body, depth),
        flat_profile(p),
    ensures
        json::within(profiled(body, p), depth),
{
    if let json::Json::Object(m) = body {
        law_profile_only_adds(m, p);
        let all = with_profile(m, p);
        assert forall|k: Seq<char>| #[trigger] all.contains_key(k) implies json::within(
            all[k],
            (depth - 1) as nat,
        ) by {
            if m.contains_key(k) {
                assert(all[k] == m[k]);
            } else {
                assert(parameter(p, k) == Some(all[k]));
            }
        }
    }
}

/// A document that was printed and read again names the model that it named.
proof fn lemma_model_comes_back(j: json::Json, back: json::Json, depth: nat)
    requires
        json::reads_as(j, back, depth),
    ensures
        model_field(back) == model_field(j),
{
    if let json::Json::Object(m) = j {
        let n = back->Object_0;
        assert(n.dom().contains("model"@) == m.dom().contains("model"@));
        if m.contains_key("model"@) {
            assert(json::reads_as(m["model"@], n["model"@], (depth - 1) as nat));
        }
    }
}

/// A body with those parameters of the profile that it does not set. A JSON body can be read
/// again, unless a number in it is printed with an exponent or a parameter is no plain value. What
/// is read again is the body with its parameters, and it names the model that it named before.
pub fn apply_profile_to_body(body_bytes: &[u8], profile: &ModelProfile) -> (res: Vec<u8>)
    ensures
        res@ == profiled_bytes(body_bytes@, profile.deep_view()),
        match (json::parsed(body_bytes@), json::parsed(res@)) {
            (Some(before), Some(after)) => {
                &&& json::reads_as(
                    profiled(before, profile.deep_view()),
                    after,
                    json::nesting_limit(),
                )
                &&& model_field(after) == model_field(before)
            },
            (Some(before), None) => !flat_profile(profile.deep_view()) || !json::plain_numbers(
                profiled(before, profile.deep_view()),
                json::nesting_limit(),
            ),
            (None, _) => res@ == body_bytes@,
        },
{
    let mut body = match json::parse(body_bytes) {
        Ok(v) => v,
        Err(_) => return vstd::slice::slice_to_vec(body_bytes),
    };
    proof {
        law_profile_keeps_the_model(json::json_of(body), profile.deep_view());
        if flat_profile(profile.deep_view()) {
            lemma_profile_keeps_nesting(
                json::json_of(body),
                profile.deep_view(),
                json::nesting_limit(),
            );
        }
    }
    apply_profile(&mut body, profile);
    match json::print_bytes(&body) {
        Ok(bytes) => {
            proof {
                if let Some(after) = json::parsed(bytes@) {
                    lemma_model_comes_back(json::json_of(body), after, json::nesting_limit());
                }
            }
            bytes
        },
        Err(_) => vstd::slice::slice_to_vec(body_bytes),
    }
}

/// A profile changes nothing that the request sets itself: every member of the body stays as it
/// is, so the model that it names stays too. What is added is a parameter of the profile.
pub proof fn law_profile_only_adds(m: Map<Seq<char>, json::Json>, p: config::ProfileView)
    ensures
        m.submap_of(with_profile(m, p)),
        forall|k: Seq<char>| #[trigger]
            with_profile(m, p).contains_key(k) && !m.contains_key(k) ==> parameter(p, k) == Some(
                with_profile(m, p)[k],
            ),
{
    lemma_parameter_names();
}

/// Every parameter of a profile is set once the profile is applied.
pub proof fn law_profile_sets_its_parameters(m: Map<Seq<char>, json::Json>, p: config::ProfileView)
    ensures
        forall|k: Seq<char>| #[trigger]
            parameter(p, k) is Some ==> with_profile(m, p).contains_key(k),
{
}

/// A profile leaves the model that a body names as it is.
pub proof fn law_profile_keeps_the_model(body: json::Json, p: config::ProfileView)
    ensures
        model_field(profiled(body, p)) == model_field(body),
{
    lemma_parameter_names();
    if let json::Json::Object(m) = body {
        law_profile_only_adds(m, p);
        assert(parameter(p, "model"@) is None);
        if m.contains_key("model"@) {
            assert(with_profile(m, p)["model"@] == m["model"@]);
        }
    }
}

/// A profile applied twice does what it does once.
pub proof fn law_profile_again_changes_nothing(body: json::Json, p: config::ProfileView)
    ensures
        profiled(profiled(body, p), p) == profiled(body, p),
{
    if let json::Json::Object(m) = body {
        law_profile_sets_its_parameters(m, p);
        lemma_parameter_names();
        assert(parameter(p, "temperature"@) == float_json(p.temperature));
        assert(parameter(p, "top_p"@) == float_json(p.top_p));
        assert(parameter(p, "top_k"@) == whole_json(p.top_k));
        assert(parameter(p, "presence_penalty"@) == float_json(p.presence_penalty));
    }
}

/// The four parameters have four names, none of them `model`.
proof fn lemma_parameter_names()
    ensures
        "temperature"@ != "top_p"@,
        "temperature"@ != "top_k"@,
        "temperature"@ != "presence_penalty"@,
        "top_p"@ != "top_k"@,
        "top_p"@ != "presence_penalty"@,
        "top_k"@ != "presence_penalty"@,
        "model"@ != "temperature"@,
        "model"@ != "top_p"@,
        "model"@ != "top_k"@,
        "model"@ != "presence_penalty"@,
{
    reveal_strlit("temperature");
    reveal_strlit("top_p");
    reveal_strlit("top_k");
    reveal_strlit("presence_penalty");
    reveal_strlit("model");
    assert("temperature"@.len() == 11 && "presence_penalty"@.len() == 16);
    assert("top_p"@[4] != "top_k"@[4]);
    assert("model"@[0] != "top_p"@[0]);
    assert("model"@[0] != "top_k"@[0]);
}

// ── What a profile and a name come to ───────────────────────────────────────

/// A profile adds to a body that is an object each of its four parameters that the body does not
/// set, under the name of the parameter and with its value, and changes nothing else, whatever
/// other members the body has. A body that is no object stays as it is.
pub proof fn law_profile_fills_what_is_missing(
    m: Map<Seq<char>, json::Json>,
    other: json::Json,
    p: config::ProfileView,
)
    ensures
        profiled(json::Json::Object(m), p) is Object,
        ({
            let n = profiled(json::Json::Object(m), p)->Object_0;
            &&& forall|k: Seq<char>| #[trigger]
                m.contains_key(k) ==> n.contains_key(k) && n[k] == m[k]
            &&& forall|k: Seq<char>| #[trigger]
                n.contains_key(k) && !m.contains_key(k) ==> k == "temperature"@ || k == "top_p"@
                    || k == "top_k"@ || k == "presence_penalty"@
            &&& !m.contains_key("temperature"@) ==> match p.temperature {
                Some(f) => n.contains_key("temperature"@) && n["temperature"@] == f.json,
                None => !n.contains_key("temperature"@),
            }
            &&& !m.contains_key("top_p"@) ==> match p.top_p {
                Some(f) => n.contains_key("top_p"@) && n["top_p"@] == f.json,
                None => !n.contains_key("top_p"@),
            }
            &&& !m.contains_key("top_k"@) ==> match p.top_k {
                Some(k) => n.contains_key("top_k"@) && n["top_k"@] == json::Json::Number(
                    text::decimal(k as nat),
                ),
                None => !n.contains_key("top_k"@),
            }
            &&& !m.contains_key("presence_penalty"@) ==> match p.presence_penalty {
                Some(f) => n.contains_key("presence_penalty"@) && n["presence_penalty"@] == f.json,
                None => !n.contains_key("presence_penalty"@),
            }
        }),
        !(other is Object) ==> profiled(other, p) == other,
{
    lemma_parameter_names();
}

/// A JSON body goes out as the print of what it says with its profile, and any other body as it
/// came in.
pub proof fn law_profiled_body_is_printed(body: Seq<u8>, p: config::ProfileView)
    ensures
        json::parsed(body) matches Some(j) ==> profiled_bytes(body, p) == json::compact_bytes(
            profiled(j, p),
        ),
        json::parsed(body) is None ==> profiled_bytes(body, p) == body,
{
}

/// A body names the model `s` where it is an object whose member `model` is the text `s`, exactly
/// as it is written, and only there.
pub proof fn law_model_is_named_as_written(j: json::Json, s: Seq<char>)
    ensures
        model_field(j) == Some(s) <==> (j matches json::Json::Object(m) && m.contains_key("model"@)
            && m["model"@] == json::Json::Text(s)),
{
}

/// The bytes of a body name the model `s` where they are the document of an object whose member
/// `model` is the text `s`, and only there; no bytes name none.
pub proof fn law_body_names_its_model(body: Seq<u8>, s: Seq<char>)
    ensures
        body.len() > 0 ==> (requested(body) == Some(s) <==> (json::parsed(body) matches Some(
            json::Json::Object(m),
        ) && m.contains_key("model"@) && m["model"@] == json::Json::Text(s))),
        body.len() == 0 ==> requested(body) is None,
{
}

/// A name with a slash is what stands before its last slash, the slash, and the profile; a name
/// without one is all id.
pub proof fn law_name_splits_at_its_last_slash(name: Seq<char>)
    ensures
        match profile_name(name) {
            Some(p) => name == base_id(name) + seq!['/'] + p && !p.contains('/'),
            None => base_id(name) == name && !name.contains('/'),
        },
{
    text::lemma_find_last(name, '/');
    let slash = text::find_last(name, '/');
    if slash >= 0 {
        let p = name.skip(slash + 1);
        assert(name == name.take(slash) + seq!['/'] + p);
        if p.contains('/') {
            let k = choose|k: int| 0 <= k < p.len() && p[k] == '/';
            assert(name[slash + 1 + k] == '/');
        }
    }
}

} // verus!
