//! What the proxy answers itself.
use crate::config;
use crate::config::ModelEntry;
use crate::http;
use crate::json;
use crate::text;
use serde_json::{Map as JsonMap, Value};
use vstd::prelude::*;
use vstd::string::*;

verus! {

/// The object with one member.
pub open spec fn object1(k: Seq<char>, v: json::Json) -> json::Json {
    json::Json::Object(Map::empty().insert(k, v))
}

/// The object with two members.
pub open spec fn object2(
    k1: Seq<char>,
    v1: json::Json,
    k2: Seq<char>,
    v2: json::Json,
) -> json::Json {
    json::Json::Object(Map::empty().insert(k1, v1).insert(k2, v2))
}

/// An answer with a JSON document.
pub open spec fn json_bytes(status: u16, body: json::Json) -> Seq<u8> {
    http::answer(status, json::compact_text(body))
}

// ── /health ─────────────────────────────────────────────────────────────────

/// Which models run, by their ids; of two models with one id the later counts.
pub open spec fn health_models(models: Seq<config::ModelView>, running: Seq<u16>) -> Map<
    Seq<char>,
    json::Json,
>
    decreases models.len(),
{
    if models.len() == 0 {
        Map::empty()
    } else {
        let m = models.last();
        health_models(models.drop_last(), running).insert(
            m.id,
            json::Json::Bool(running.contains(m.port)),
        )
    }
}

/// The document that tells which models run.
pub open spec fn health_json(models: Seq<config::ModelView>, running: Seq<u16>) -> json::Json {
    object2(
        "status"@,
        json::Json::Text("ok"@),
        "models"@,
        json::Json::Object(health_models(models, running)),
    )
}

/// Whether `port` is one of `ports`.
pub fn has_port(ports: &Vec<u16>, port: u16) -> (res: bool)
    ensures
        res == ports@.contains(port),
{
    let mut i: usize = 0;
    while i < ports.len()
        invariant
            i <= ports.len(),
            forall|k: int| 0 <= k < i ==> ports@[k] != port,
        decreases ports.len() - i,
    {
        if ports[i] == port {
            return true;
        }
        i += 1;
    }
    false
}

/// The document that tells which models run, given the ports in use.
pub fn health_value(models: &Vec<ModelEntry>, running: &Vec<u16>) -> (v: Value)
    ensures
        json::json_of(v) == health_json(models.deep_view(), running@),
{
    let mut status: JsonMap<String, Value> = JsonMap::new();
    let ghost all = models.deep_view();
    let mut i: usize = 0;
    assert(all.take(0).len() == 0);
    assert(json::members(status) =~= Map::<Seq<char>, json::Json>::empty());
    while i < models.len()
        invariant
            i <= models.len(),
            all == models.deep_view(),
            json::members(status) == health_models(all.take(i as int), running@),
        decreases models.len() - i,
    {
        let m = &models[i];
        assert(all.take(i + 1).last() == m.deep_view());
        assert(all.take(i + 1).drop_last() == all.take(i as int));
        let up = has_port(running, m.port);
        let _ = status.insert(m.id.clone(), json::bool_value(up));
        i += 1;
    }
    assert(all.take(all.len() as int) == all);
    let mut body: JsonMap<String, Value> = JsonMap::new();
    assert(json::members(body) =~= Map::<Seq<char>, json::Json>::empty());
    let _ = body.insert("status".to_string(), json::text_value("ok".to_string()));
    let _ = body.insert("models".to_string(), json::object_value(status));
    json::object_value(body)
}

/// The answer to a question for the health of the proxy.
pub fn health_reply(models: &Vec<ModelEntry>, running: &Vec<u16>) -> (res: Vec<u8>)
    ensures
        res@ == json_bytes(200, health_json(models.deep_view(), running@)),
{
    http::json_answer(200, &health_value(models, running))
}

/// The health document tells of every configured model, and of no other; and where no later model
/// has the same id, it tells of a model whether its port is in use.
pub proof fn law_health_tells_every_model(models: Seq<config::ModelView>, running: Seq<u16>)
    ensures
        forall|id: Seq<char>| #[trigger]
            health_models(models, running).contains_key(id) <==> exists|i: int|
                0 <= i < models.len() && (#[trigger] models[i]).id == id,
        forall|i: int|
            0 <= i < models.len() && (forall|j: int|
                i < j < models.len() ==> (#[trigger] models[j]).id != models[i].id)
                ==> health_models(models, running)[(#[trigger] models[i]).id] == json::Json::Bool(
                running.contains(models[i].port),
            ),
    decreases models.len(),
{
    if models.len() > 0 {
        let before = models.drop_last();
        law_health_tells_every_model(before, running);
        let all = health_models(models, running);
        let m = models.last();
        assert forall|id: Seq<char>| #[trigger] all.contains_key(id) <==> exists|i: int|
            0 <= i < models.len() && (#[trigger] models[i]).id == id by {
            if id == m.id {
                assert(models[models.len() - 1].id == id);
            } else if health_models(before, running).contains_key(id) {
                let i = choose|i: int| 0 <= i < before.len() && (#[trigger] before[i]).id == id;
                assert(models[i].id == id);
            } else if exists|i: int| 0 <= i < models.len() && (#[trigger] models[i]).id == id {
                let i = choose|i: int| 0 <= i < models.len() && (#[trigger] models[i]).id == id;
                assert(before[i].id == id);
            }
        }
        assert forall|i: int|
            0 <= i < models.len() && (forall|j: int|
                i < j < models.len() ==> (#[trigger] models[j]).id
                    != models[i].id) implies all[(#[trigger] models[i]).id] == json::Json::Bool(
            running.contains(models[i].port),
        ) by {
            if i < models.len() - 1 {
                assert(before[i] == models[i]);
                assert(models[models.len() - 1].id != models[i].id);
                assert forall|j: int| i < j < before.len() implies (#[trigger] before[j]).id
                    != before[i].id by {
                    assert(models[j] == before[j]);
                }
            }
        }
    }
}

// ── /v1/models ──────────────────────────────────────────────────────────────

/// The document that stands for one model in the list.
pub open spec fn model_json(m: config::ModelView) -> json::Json {
    json::Json::Object(
        Map::empty().insert("id"@, json::Json::Text(m.id)).insert(
            "object"@,
            json::Json::Text("model"@),
        ).insert("created"@, json::Json::Number(text::decimal(0))).insert(
            "owned_by"@,
            json::Json::Text("local"@),
        ),
    )
}

/// The document that lists the models.
pub open spec fn models_json(models: Seq<config::ModelView>) -> json::Json {
    object2(
        "object"@,
        json::Json::Text("list"@),
        "data"@,
        json::Json::Array(models.map_values(|m: config::ModelView| model_json(m))),
    )
}

/// The document that stands for one model in the list.
fn model_value(m: &ModelEntry) -> (v: Value)
    ensures
        json::json_of(v) == model_json(m.deep_view()),
{
    let mut obj: JsonMap<String, Value> = JsonMap::new();
    assert(json::members(obj) =~= Map::<Seq<char>, json::Json>::empty());
    let _ = obj.insert("id".to_string(), json::text_value(m.id.clone()));
    let _ = obj.insert("object".to_string(), json::text_value("model".to_string()));
    let _ = obj.insert("created".to_string(), json::number_value(0));
    let _ = obj.insert("owned_by".to_string(), json::text_value("local".to_string()));
    json::object_value(obj)
}

/// The document that lists the models.
pub fn models_value(models: &Vec<ModelEntry>) -> (v: Value)
    ensures
        json::json_of(v) == models_json(models.deep_view()),
{
    let mut data: Vec<Value> = Vec::new();
    let ghost all = models.deep_view();
    let mut i: usize = 0;
    while i < models.len()
        invariant
            i <= models.len(),
            all == models.deep_view(),
            json::elements(data@) == all.take(i as int).map_values(
                |m: config::ModelView| model_json(m),
            ),
        decreases models.len() - i,
    {
        let v = model_value(&models[i]);
        proof {
            assert(all[i as int] == models@[i as int].deep_view());
            assert(json::elements(data@.push(v)) == json::elements(data@).push(json::json_of(v)));
            assert(all.take(i + 1) == all.take(i as int).push(all[i as int]));
            assert(all.take(i + 1).map_values(|m: config::ModelView| model_json(m)) == all.take(
                i as int,
            ).map_values(|m: config::ModelView| model_json(m)).push(model_json(all[i as int])));
        }
        data.push(v);
        i += 1;
    }
    assert(all.take(all.len() as int) == all);
    let mut body: JsonMap<String, Value> = JsonMap::new();
    assert(json::members(body) =~= Map::<Seq<char>, json::Json>::empty());
    let _ = body.insert("object".to_string(), json::text_value("list".to_string()));
    let _ = body.insert("data".to_string(), json::array_value(data));
    json::object_value(body)
}

/// The answer to a question for the models.
pub fn models_reply(models: &Vec<ModelEntry>) -> (res: Vec<u8>)
    ensures
        res@ == json_bytes(200, models_json(models.deep_view())),
{
    http::json_answer(200, &models_value(models))
}

/// The list names every configured model, in the order of the configuration, and no other.
pub proof fn law_list_names_every_model(models: Seq<config::ModelView>)
    ensures
        ({
            let data = models.map_values(|m: config::ModelView| model_json(m));
            &&& models_json(models) matches json::Json::Object(list)
            &&& list["data"@] == json::Json::Array(data)
            &&& data.len() == models.len()
            &&& forall|i: int|
                0 <= i < models.len() ==> ((#[trigger] data[i]) matches json::Json::Object(m)
                    && m["id"@] == json::Json::Text(models[i].id))
        }),
{
    reveal_strlit("id");
    reveal_strlit("object");
    reveal_strlit("created");
    reveal_strlit("owned_by");
    reveal_strlit("data");
    assert("id"@.len() == 2 && "object"@.len() == 6 && "created"@.len() == 7 && "owned_by"@.len()
        == 8);
    let data = models.map_values(|m: config::ModelView| model_json(m));
    assert forall|i: int| 0 <= i < models.len() implies ((#[trigger] data[i]) matches json::Json::Object(m)
        && m["id"@] == json::Json::Text(models[i].id)) by {
        assert(data[i] == model_json(models[i]));
    }
}

// ── Outcomes ────────────────────────────────────────────────────────────────

/// The document that tells how an order went.
pub open spec fn outcome_json(status: Seq<char>, message: Seq<char>) -> json::Json {
    object2("status"@, json::Json::Text(status), "message"@, json::Json::Text(message))
}

/// The document that tells of a failure.
pub open spec fn error_json(message: Seq<char>) -> json::Json {
    object1("error"@, json::Json::Text(message))
}

/// The document that tells how an order went.
pub fn outcome_value(status: &str, message: String) -> (v: Value)
    ensures
        json::json_of(v) == outcome_json(status@, message@),
{
    let mut body: JsonMap<String, Value> = JsonMap::new();
    assert(json::members(body) =~= Map::<Seq<char>, json::Json>::empty());
    let _ = body.insert("status".to_string(), json::text_value(status.to_string()));
    let _ = body.insert("message".to_string(), json::text_value(message));
    json::object_value(body)
}

/// The document that tells of a failure.
pub fn error_value(message: String) -> (v: Value)
    ensures
        json::json_of(v) == error_json(message@),
{
    let mut body: JsonMap<String, Value> = JsonMap::new();
    assert(json::members(body) =~= Map::<Seq<char>, json::Json>::empty());
    let _ = body.insert("error".to_string(), json::text_value(message));
    json::object_value(body)
}

/// The bytes of the answer to an order to unload a model, by how it went.
pub open spec fn unload_bytes(outcome: Result<Seq<char>, Seq<char>>) -> Seq<u8> {
    match outcome {
        Ok(message) => json_bytes(200, outcome_json("ok"@, message)),
        Err(message) => json_bytes(404, outcome_json("error"@, message)),
    }
}

/// A result, its texts as sequences of characters.
pub open spec fn outcome_view(outcome: Result<String, String>) -> Result<Seq<char>, Seq<char>> {
    match outcome {
        Ok(s) => Ok(s@),
        Err(s) => Err(s@),
    }
}

/// The answer to an order to unload a model, by how it went.
pub fn unload_reply(outcome: Result<String, String>) -> (res: Vec<u8>)
    ensures
        res@ == unload_bytes(outcome_view(outcome)),
{
    match outcome {
        Ok(message) => http::json_answer(200, &outcome_value("ok", message)),
        Err(message) => http::json_answer(404, &outcome_value("error", message)),
    }
}

/// The answer to an order to unload that names no port.
pub fn invalid_port_reply() -> (res: Vec<u8>)
    ensures
        res@ == json_bytes(400, outcome_json("error"@, "Invalid port"@)),
{
    http::json_answer(400, &outcome_value("error", "Invalid port".to_string()))
}

/// An answer that tells of a failure.
pub fn error_reply(status: u16, message: String) -> (res: Vec<u8>)
    ensures
        res@ == json_bytes(status, error_json(message@)),
{
    http::json_answer(status, &error_value(message))
}

/// An answer that tells of a failure, a label before its cause.
pub fn labelled_error_reply(status: u16, label: &str, cause: &str) -> (res: Vec<u8>)
    ensures
        res@ == json_bytes(status, error_json(label@ + cause@)),
{
    error_reply(status, label.to_string().concat(cause))
}

// ── Laws of the documents ───────────────────────────────────────────────────

/// The health document has two members: its status, which is `ok`, and the models. In these stands
/// every configured id, and no other name; an id that no later model has is true exactly where the
/// port of its model is in use.
pub proof fn law_health_document(models: Seq<config::ModelView>, running: Seq<u16>)
    ensures
        health_json(models, running) is Object,
        ({
            let d = health_json(models, running)->Object_0;
            &&& forall|k: Seq<char>| #[trigger]
                d.contains_key(k) <==> k == "status"@ || k == "models"@
            &&& d["status"@] == json::Json::Text("ok"@)
            &&& d["models"@] is Object
            &&& forall|id: Seq<char>| #[trigger]
                (d["models"@]->Object_0).contains_key(id) <==> exists|i: int|
                    0 <= i < models.len() && (#[trigger] models[i]).id == id
            &&& forall|i: int|
                0 <= i < models.len() && (forall|j: int|
                    i < j < models.len() ==> (#[trigger] models[j]).id != models[i].id) ==> (
                d["models"@]->Object_0)[(#[trigger] models[i]).id] == json::Json::Bool(
                    running.contains(models[i].port),
                )
        }),
{
    reveal_strlit("status");
    reveal_strlit("models");
    assert("status"@[0] != "models"@[0]);
    law_health_tells_every_model(models, running);
}

/// The list of models has two members: that it is a list, and the models in the order of the
/// configuration. Each of these has four members: its id, that it is a model, that it was created
/// at 0, and that it is owned by `local`.
pub proof fn law_list_document(models: Seq<config::ModelView>)
    ensures
        models_json(models) is Object,
        ({
            let d = models_json(models)->Object_0;
            let data = d["data"@]->Array_0;
            &&& forall|k: Seq<char>| #[trigger]
                d.contains_key(k) <==> k == "object"@ || k == "data"@
            &&& d["object"@] == json::Json::Text("list"@)
            &&& d["data"@] is Array
            &&& data.len() == models.len()
            &&& forall|i: int|
                0 <= i < models.len() ==> {
                    &&& (#[trigger] data[i]) is Object
                    &&& forall|k: Seq<char>| #[trigger]
                        (data[i]->Object_0).contains_key(k) <==> k == "id"@ || k == "object"@ || k
                            == "created"@ || k == "owned_by"@
                    &&& (data[i]->Object_0)["id"@] == json::Json::Text(models[i].id)
                    &&& (data[i]->Object_0)["object"@] == json::Json::Text("model"@)
                    &&& (data[i]->Object_0)["created"@] == json::Json::Number(seq!['0'])
                    &&& (data[i]->Object_0)["owned_by"@] == json::Json::Text("local"@)
                }
        }),
{
    reveal_strlit("id");
    reveal_strlit("object");
    reveal_strlit("created");
    reveal_strlit("owned_by");
    reveal_strlit("data");
    assert("id"@.len() == 2 && "object"@.len() == 6 && "created"@.len() == 7 && "owned_by"@.len()
        == 8 && "data"@.len() == 4);
    text::law_decimal_is_plain(0);
    let data = models_json(models)->Object_0["data"@]->Array_0;
    assert forall|i: int| 0 <= i < models.len() implies #[trigger] data[i] == model_json(
        models[i],
    ) by {}
}

/// An order to unload is answered with status 200 and the message where it went well, and with
/// status 404 and the message where it did not; a failure of a request is told under `error`.
pub proof fn law_outcomes_are_told(
    outcome: Result<Seq<char>, Seq<char>>,
    status: u16,
    message: Seq<char>,
)
    ensures
        outcome matches Ok(m) ==> unload_bytes(outcome) == http::answer(
            200,
            json::compact_text(
                json::Json::Object(
                    map!["status"@ => json::Json::Text("ok"@), "message"@ => json::Json::Text(m)],
                ),
            ),
        ),
        outcome matches Err(m) ==> unload_bytes(outcome) == http::answer(
            404,
            json::compact_text(
                json::Json::Object(
                    map!["status"@ => json::Json::Text("error"@), "message"@ => json::Json::Text(m)],
                ),
            ),
        ),
        json_bytes(status, error_json(message)) == http::answer(
            status,
            json::compact_text(json::Json::Object(map!["error"@ => json::Json::Text(message)])),
        ),
        json_bytes(status, outcome_json("error"@, message)) == http::answer(
            status,
            json::compact_text(
                json::Json::Object(
                    map![
                        "status"@ => json::Json::Text("error"@),
                        "message"@ => json::Json::Text(message),
                    ],
                ),
            ),
        ),
{
    reveal_strlit("status");
    reveal_strlit("message");
    assert("status"@.len() != "message"@.len());
}

} // verus!
