//! What holds of every connection.
use crate::body;
use crate::config;
use crate::http;
use crate::json;
use crate::proxy;
use crate::replies;
use crate::text;
use vstd::prelude::*;

verus! {

// ── Reading a request ───────────────────────────────────────────────────────

/// Some pieces, one behind the other.
pub open spec fn whole(pieces: Seq<Seq<u8>>) -> Seq<u8>
    decreases pieces.len(),
{
    if pieces.len() == 0 {
        seq![]
    } else {
        whole(pieces.drop_last()) + pieces.last()
    }
}

/// The step of a new connection after some pieces were read, one by one.
pub open spec fn after_pieces(
    models: Seq<config::ModelView>,
    pieces: Seq<Seq<u8>>,
) -> proxy::StepView
    decreases pieces.len(),
{
    if pieces.len() == 0 {
        proxy::StepView {
            state: proxy::StateView::Head { buf: seq![] },
            action: proxy::ActionView::Read,
        }
    } else {
        proxy::step(
            models,
            after_pieces(models, pieces.drop_last()).state,
            proxy::EventView::Data(pieces.last()),
        )
    }
}

/// Whether `request` is one whole request: a header block, its end, and a body of the length that
/// the header block declares.
pub open spec fn complete(request: Seq<u8>) -> bool {
    let end = http::header_end(request);
    &&& end < request.len()
    &&& request.len() == end + 4 + http::head_of(
        text::utf8_lossy(request.take(end as int)),
    ).content_length
}

/// Whether every piece holds something and none comes short before the header block is whole.
pub open spec fn fully_read(pieces: Seq<Seq<u8>>) -> bool {
    &&& forall|i: int| 0 <= i < pieces.len() ==> (#[trigger] pieces[i]).len() > 0
    &&& forall|i: int|
        0 <= i < pieces.len() && !text::contains_part(
            whole(#[trigger] pieces.take(i + 1)),
            http::terminator(),
        ) ==> pieces[i].len() >= 8192
}

/// A request is read whole, in whatever pieces it comes: once the last piece is in, the proxy
/// decides about exactly the bytes that were sent.
pub proof fn law_request_is_read_in_any_pieces(
    models: Seq<config::ModelView>,
    pieces: Seq<Seq<u8>>,
)
    requires
        fully_read(pieces),
        complete(whole(pieces)),
    ensures
        after_pieces(models, pieces) == proxy::dispatch(
            models,
            whole(pieces),
            http::header_end(whole(pieces)),
        ),
{
    lemma_reading(models, pieces, pieces.len() as int);
    assert(pieces.take(pieces.len() as int) == pieces);
    http::lemma_header_end_found(whole(pieces));
}

/// Where reading stands after the first `k` pieces of a request.
proof fn lemma_reading(models: Seq<config::ModelView>, pieces: Seq<Seq<u8>>, k: int)
    requires
        fully_read(pieces),
        complete(whole(pieces)),
        0 <= k <= pieces.len(),
    ensures
        ({
            let all = whole(pieces);
            let have = whole(pieces.take(k));
            let step = after_pieces(models, pieces.take(k));
            if !text::contains_part(have, http::terminator()) {
                step.state == (proxy::StateView::Head { buf: have })
            } else if have.len() < all.len() {
                step.state == (proxy::StateView::Body {
                    buf: have,
                    header_end: http::header_end(all),
                    remaining: (all.len() - have.len()) as nat,
                })
            } else {
                step == proxy::dispatch(models, all, http::header_end(all))
            }
        }),
    decreases k,
{
    let all = whole(pieces);
    let have = whole(pieces.take(k));
    if k == 0 {
        assert(have.len() == 0);
        assert(!text::contains_part(have, http::terminator())) by {
            if text::contains_part(have, http::terminator()) {
                let i = choose|i: int| text::stands_at(have, http::terminator(), i);
                assert(i + 4 <= have.len());
            }
        }
    } else {
        lemma_reading(models, pieces, k - 1);
        let before = whole(pieces.take(k - 1));
        let data = pieces[k - 1];
        assert(pieces.take(k).drop_last() == pieces.take(k - 1));
        assert(pieces.take(k).last() == data);
        assert(have == before + data);
        lemma_whole_begins(pieces, k);
        lemma_whole_begins(pieces, k - 1);
        http::lemma_header_end_found(before);
        http::lemma_header_end_found(have);
        http::lemma_header_end_found(all);
        assert(data.len() > 0);
        if text::contains_part(have, http::terminator()) {
            lemma_header_end_stays(have, all.skip(have.len() as int));
            assert(have + all.skip(have.len() as int) == all);
            let end = http::header_end(all) as int;
            assert(have.take(end) == all.take(end));
            if text::contains_part(before, http::terminator()) {
                let remaining = (all.len() - before.len()) as nat;
                if have.len() == all.len() {
                    assert(data.take(remaining as int) == data);
                    assert(have == all);
                }
            } else {
                assert(proxy::missing(have) == all.len() - have.len());
                assert(have.len() == all.len() ==> have == all);
            }
        } else {
            assert(pieces.take(k - 1 + 1) == pieces.take(k));
            assert(!text::contains_part(before, http::terminator())) by {
                if text::contains_part(before, http::terminator()) {
                    let i = choose|i: int| text::stands_at(before, http::terminator(), i);
                    assert(have.subrange(i, i + 4) == before.subrange(i, i + 4));
                    assert(text::stands_at(have, http::terminator(), i));
                }
            }
        }
    }
}

/// The first pieces make the start of the whole; without the last piece something is missing.
proof fn lemma_whole_begins(pieces: Seq<Seq<u8>>, k: int)
    requires
        0 <= k <= pieces.len(),
        forall|i: int| 0 <= i < pieces.len() ==> (#[trigger] pieces[i]).len() > 0,
    ensures
        whole(pieces.take(k)).len() <= whole(pieces).len(),
        k < pieces.len() ==> whole(pieces.take(k)).len() < whole(pieces).len(),
        whole(pieces).take(whole(pieces.take(k)).len() as int) == whole(pieces.take(k)),
    decreases pieces.len(),
{
    let n = whole(pieces.take(k)).len() as int;
    if k == pieces.len() {
        assert(pieces.take(k) == pieces);
        assert(whole(pieces).take(n) == whole(pieces));
    } else {
        let front = pieces.drop_last();
        assert(pieces[pieces.len() - 1].len() > 0);
        assert forall|i: int| 0 <= i < front.len() implies (#[trigger] front[i]).len() > 0 by {
            assert(front[i] == pieces[i]);
        }
        lemma_whole_begins(front, k);
        assert(front.take(k) == pieces.take(k));
        assert(whole(pieces).take(n) == whole(front).take(n));
    }
}

/// No terminator stands before the end of a header block.
proof fn lemma_no_earlier_end(buf: Seq<u8>, k: int)
    requires
        0 <= k < http::header_end(buf),
    ensures
        !text::stands_at(buf, http::terminator(), k),
    decreases buf.len(),
{
    if k > 0 {
        let rest = buf.drop_first();
        lemma_no_earlier_end(rest, k - 1);
        if text::stands_at(buf, http::terminator(), k) {
            assert(rest.subrange(k - 1, k + 3) == buf.subrange(k, k + 4));
        }
    }
}

/// Where a header block ends does not depend on what follows.
proof fn lemma_header_end_stays(buf: Seq<u8>, more: Seq<u8>)
    requires
        text::contains_part(buf, http::terminator()),
    ensures
        http::header_end(buf + more) == http::header_end(buf),
{
    http::lemma_header_end_found(buf);
    let all = buf + more;
    let end = http::header_end(buf) as int;
    assert(all.subrange(end, end + 4) == buf.subrange(end, end + 4));
    assert forall|k: int| 0 <= k < end implies !text::stands_at(all, http::terminator(), k) by {
        lemma_no_earlier_end(buf, k);
        if text::stands_at(all, http::terminator(), k) {
            assert(all.subrange(k, k + 4) == buf.subrange(k, k + 4));
        }
    }
    http::lemma_header_end(all, end);
}

// ── Choosing who answers ────────────────────────────────────────────────────

/// The path `/unload/` and the number of a port ask to stop the server on that port.
pub proof fn law_unload_names_a_port(method: Seq<char>, port: u16)
    requires
        port > 0,
    ensures
        proxy::route_of(method, "/unload/"@ + text::decimal(port as nat)) == proxy::Route::Unload(
            Some(port),
        ),
{
    let path = "/unload/"@ + text::decimal(port as nat);
    reveal_strlit("/unload/");
    reveal_strlit("/health");
    reveal_strlit("/v1/models");
    assert(path[1] == 'u' && "/health"@[1] == 'h' && "/v1/models"@[1] == 'v');
    assert(path.subrange(0, "/unload/"@.len() as int) == "/unload/"@);
    assert(path.skip("/unload/"@.len() as int) == text::decimal(port as nat));
    text::law_decimal_reads_back(port as nat, u16::MAX as nat);
}

/// A request that names a configured model by its id goes to the server of that model, as it is.
pub proof fn law_configured_model_is_served(
    models: Seq<config::ModelView>,
    i: int,
    buf: Seq<u8>,
    header_end: nat,
)
    requires
        0 <= i < models.len(),
        forall|j: int| 0 <= j < i ==> (#[trigger] models[j]).id != models[i].id,
        header_end + 4 <= buf.len(),
        asks_for(buf, header_end, models[i].id),
    ensures
        ({
            let head = text::utf8_lossy(buf.take(header_end as int));
            let request = http::forwarded(head, buf.skip(header_end as int + 4), models[i].port);
            let step = proxy::dispatch(models, buf, header_end);
            &&& step.state == (proxy::StateView::Check { port: models[i].port, request })
            &&& step.action == proxy::ActionView::CheckRunning(models[i].port)
        }),
{
    config::lemma_model_index(models, models[i].id, i);
}

/// Whether a request is for a model, and for the model `name`.
pub open spec fn asks_for(buf: Seq<u8>, header_end: nat, name: Seq<char>) -> bool {
    let h = http::head_of(text::utf8_lossy(buf.take(header_end as int)));
    &&& proxy::route_of(h.method, h.path) is Model
    &&& body::requested(buf.skip(header_end as int + 4)) == Some(name)
}

/// A request that names a configured model and, behind a slash, one of its profiles goes to the
/// server of that model with the parameters of that profile, unless the whole name is itself the
/// id of a model.
pub proof fn law_named_profile_is_applied(
    models: Seq<config::ModelView>,
    i: int,
    profile: config::ProfileView,
    buf: Seq<u8>,
    header_end: nat,
)
    requires
        0 <= i < models.len(),
        forall|j: int| 0 <= j < i ==> (#[trigger] models[j]).id != models[i].id,
        config::profile_of(models[i].profiles, profile.name) == Some(profile),
        !profile.name.contains('/'),
        forall|j: int|
            0 <= j < models.len() ==> (#[trigger] models[j]).id != models[i].id + seq!['/']
                + profile.name,
        header_end + 4 <= buf.len(),
        asks_for(buf, header_end, models[i].id + seq!['/'] + profile.name),
    ensures
        ({
            let head = text::utf8_lossy(buf.take(header_end as int));
            let sent = body::profiled_bytes(buf.skip(header_end as int + 4), profile);
            let request = http::forwarded(head, sent, models[i].port);
            let step = proxy::dispatch(models, buf, header_end);
            &&& step.state == (proxy::StateView::Check { port: models[i].port, request })
            &&& step.action == proxy::ActionView::CheckRunning(models[i].port)
        }),
{
    body::law_named_profile_is_found(models[i].id, profile.name);
    config::lemma_model_index(
        models,
        models[i].id + seq!['/'] + profile.name,
        models.len() as int,
    );
    config::lemma_model_index(models, models[i].id, i);
}

/// A request for a model that is not configured is answered with status 404 and starts nothing.
pub proof fn law_unknown_model_is_refused(
    models: Seq<config::ModelView>,
    name: Seq<char>,
    buf: Seq<u8>,
    header_end: nat,
)
    requires
        forall|j: int|
            0 <= j < models.len() ==> (#[trigger] models[j]).id != name && models[j].id
                != body::base_id(name),
        header_end + 4 <= buf.len(),
        asks_for(buf, header_end, name),
    ensures
        proxy::dispatch(models, buf, header_end) == proxy::reply(
            replies::json_bytes(
                404,
                replies::error_json("Unknown model: "@ + body::base_id(name)),
            ),
        ),
{
    config::lemma_model_index(models, name, models.len() as int);
    config::lemma_model_index(models, body::base_id(name), models.len() as int);
}

// ── Bringing the model server up ────────────────────────────────────────────

/// Whether a connection is on its way to the model server on `port` with `request`.
pub open spec fn carries(state: proxy::StateView, port: u16, request: Seq<u8>) -> bool {
    match state {
        proxy::StateView::Check { port: p, request: r } => p == port && r == request,
        proxy::StateView::Start { port: p, request: r } => p == port && r == request,
        proxy::StateView::Probe { port: p, request: r, tries } => p == port && r == request
            && tries < 120,
        proxy::StateView::Pause { port: p, request: r, tries } => p == port && r == request
            && tries + 1 < 120,
        proxy::StateView::Connect { port: p, request: r } => p == port && r == request,
        _ => false,
    }
}

/// Whether a connection on its way waits for such an event.
pub open spec fn awaits(state: proxy::StateView, event: proxy::EventView) -> bool {
    match state {
        proxy::StateView::Check { .. } => event is Checked,
        proxy::StateView::Start { .. } => event is Started,
        proxy::StateView::Probe { .. } => event is Probed,
        proxy::StateView::Pause { .. } => event is Paused,
        proxy::StateView::Connect { .. } => event is Connected,
        _ => false,
    }
}

/// A connection on its way to a model server keeps its port and its request until that request is
/// sent or the client is told why it is not: no such connection is closed unanswered.
pub proof fn law_request_is_sent_or_answered(
    models: Seq<config::ModelView>,
    state: proxy::StateView,
    event: proxy::EventView,
    port: u16,
    request: Seq<u8>,
)
    requires
        carries(state, port, request),
        awaits(state, event),
    ensures
        ({
            let next = proxy::step(models, state, event);
            ||| carries(next.state, port, request)
            ||| next.state is Done && next.action is Reply
            ||| next.state == (proxy::StateView::Forward { port }) && next.action
                == proxy::ActionView::Forward(request)
        }),
{
}

/// A server that runs is connected to at once; only one that does not is started.
pub proof fn law_running_server_is_not_started(
    models: Seq<config::ModelView>,
    port: u16,
    request: Seq<u8>,
    running: bool,
)
    ensures
        ({
            let next = proxy::step(
                models,
                proxy::StateView::Check { port, request },
                proxy::EventView::Checked(running),
            );
            &&& next.action == proxy::ActionView::Start(port) <==> !running
            &&& next.action == proxy::ActionView::Connect(port) <==> running
        }),
{
}

/// How many more steps a connection on its way can take before it is done.
pub open spec fn steps_left(state: proxy::StateView) -> int {
    match state {
        proxy::StateView::Check { .. } => 244,
        proxy::StateView::Start { .. } => 243,
        proxy::StateView::Probe { tries, .. } => 2 * (120 - tries) + 2,
        proxy::StateView::Pause { tries, .. } => 2 * (120 - tries) + 1,
        proxy::StateView::Connect { .. } => 2,
        proxy::StateView::Forward { .. } => 1,
        _ => 0,
    }
}

/// The wait for a model server ends: every step of a connection on its way leaves it fewer.
pub proof fn law_wait_for_model_ends(
    models: Seq<config::ModelView>,
    state: proxy::StateView,
    event: proxy::EventView,
    port: u16,
    request: Seq<u8>,
)
    requires
        carries(state, port, request),
    ensures
        0 <= steps_left(proxy::step(models, state, event).state) < steps_left(state),
{
}

// ── Routes, by method and path ──────────────────────────────────────────────

/// Four things are asked for. `/health` asks which models run, whatever the method; `GET
/// /v1/models` asks which there are; a path that begins with `/unload/` asks to stop a server; and
/// every other request asks something of a model.
pub proof fn law_path_decides(method: Seq<char>, path: Seq<char>)
    ensures
        proxy::route_of(method, path) is Health <==> path == "/health"@,
        proxy::route_of(method, path) is Models <==> path == "/v1/models"@ && method == "GET"@,
        proxy::route_of(method, path) is Unload <==> path.len() >= 8 && path.take(8)
            == "/unload/"@,
        proxy::route_of(method, path) is Model <==> path != "/health"@ && !(path == "/v1/models"@
            && method == "GET"@) && !(path.len() >= 8 && path.take(8) == "/unload/"@),
{
    reveal_strlit("/unload/");
    reveal_strlit("/health");
    reveal_strlit("/v1/models");
    assert("/unload/"@.len() == 8);
    assert("/health"@.len() == 7);
    assert("/v1/models"@[1] != "/unload/"@[1] && "/v1/models"@.len() == 10);
    if path.len() >= 8 {
        assert(path.subrange(0, 8) == path.take(8));
    }
    if path == "/v1/models"@ {
        assert(path.take(8)[1] == 'v');
    }
}

/// An order to unload names the number behind `/unload/`, where that is the number of a port other
/// than 0, and otherwise none.
pub proof fn law_unload_port_is_the_number(method: Seq<char>, rest: Seq<char>)
    ensures
        proxy::route_of(method, "/unload/"@ + rest) == proxy::Route::Unload(
            match text::unsigned(rest, 65535) {
                Some(n) => if n > 0 {
                    Some(n as u16)
                } else {
                    None
                },
                None => None,
            },
        ),
{
    let path = "/unload/"@ + rest;
    reveal_strlit("/unload/");
    reveal_strlit("/health");
    reveal_strlit("/v1/models");
    assert(path[1] == 'u' && "/health"@[1] == 'h' && "/v1/models"@[1] == 'v');
    assert(path.subrange(0, "/unload/"@.len() as int) == "/unload/"@);
    assert(path.skip("/unload/"@.len() as int) == rest);
}

// ── Targets, by name ────────────────────────────────────────────────────────

/// A request without a name is for nobody. A name that is the id of a model is for the first model
/// with that id, without a profile.
pub proof fn law_id_is_looked_up_whole(models: Seq<config::ModelView>, i: int)
    requires
        0 <= i < models.len(),
        forall|j: int| 0 <= j < i ==> (#[trigger] models[j]).id != models[i].id,
    ensures
        proxy::target_of(models, None) is Missing,
        proxy::target_of(models, Some(models[i].id)) == (proxy::TargetView::Found {
            model: models[i],
            profile: None,
        }),
{
    config::lemma_model_index(models, models[i].id, i);
}

/// A name that is no id is split at its last slash: what stands before it finds the model, and
/// what stands behind it the profile, where the model has one of that name. Where no model is
/// found, the request is for an unknown one.
pub proof fn law_other_name_is_split(
    models: Seq<config::ModelView>,
    id: Seq<char>,
    profile: Seq<char>,
    i: int,
)
    requires
        !profile.contains('/'),
        0 <= i <= models.len(),
        forall|j: int| 0 <= j < i ==> (#[trigger] models[j]).id != id,
        forall|j: int|
            0 <= j < models.len() ==> (#[trigger] models[j]).id != id + seq!['/'] + profile,
    ensures
        i < models.len() && models[i].id == id ==> proxy::target_of(
            models,
            Some(id + seq!['/'] + profile),
        ) == (proxy::TargetView::Found {
            model: models[i],
            profile: config::profile_of(models[i].profiles, profile),
        }),
        i == models.len() ==> proxy::target_of(models, Some(id + seq!['/'] + profile))
            == proxy::TargetView::Unknown(id),
        i == models.len() && !id.contains('/') ==> proxy::target_of(models, Some(id))
            == proxy::TargetView::Unknown(id),
{
    body::law_named_profile_is_found(id, profile);
    config::lemma_model_index(models, id + seq!['/'] + profile, models.len() as int);
    if i == models.len() || models[i].id == id {
        config::lemma_model_index(models, id, i);
    }
    if !id.contains('/') {
        body::law_plain_id_has_no_profile(id);
    }
}

// ── From the bytes of a request to what is done ─────────────────────────────

/// What a request is answered or asked, by its method and path: the proxy looks up the ports in
/// use for a question about health, lists the models itself, has a server stopped, refuses an
/// order to unload that names no port, and does not answer a request for a model without the end
/// of its header block.
pub proof fn law_route_is_taken(models: Seq<config::ModelView>, buf: Seq<u8>, header_end: nat)
    ensures
        ({
            let h = http::head_of(text::utf8_lossy(buf.take(header_end as int)));
            let route = proxy::route_of(h.method, h.path);
            let next = proxy::dispatch(models, buf, header_end);
            &&& route is Health ==> next.state is Health && next.action is ListRunning
            &&& route is Models ==> next.state is Done && next.action == proxy::ActionView::Reply(
                http::answer(200, json::compact_text(replies::models_json(models))),
            )
            &&& route matches proxy::Route::Unload(Some(port)) ==> next.state is Unload
                && next.action == proxy::ActionView::Unload(port)
            &&& route == proxy::Route::Unload(None) ==> next.state is Done && next.action
                == proxy::ActionView::Reply(
                http::answer(
                    400,
                    json::compact_text(
                        json::Json::Object(
                            map![
                                "status"@ => json::Json::Text("error"@),
                                "message"@ => json::Json::Text("Invalid port"@),
                            ],
                        ),
                    ),
                ),
            )
            &&& route is Model && header_end + 4 > buf.len() ==> next.state is Done
                && next.action is Close
        }),
{
    replies::law_outcomes_are_told(Ok(seq![]), 400, "Invalid port"@);
}

/// Whether a request is for a model, with a body that is the JSON document `doc`.
pub open spec fn carries_document(buf: Seq<u8>, header_end: nat, doc: json::Json) -> bool {
    let h = http::head_of(text::utf8_lossy(buf.take(header_end as int)));
    &&& header_end + 4 < buf.len()
    &&& proxy::route_of(h.method, h.path) is Model
    &&& json::parsed(buf.skip(header_end as int + 4)) == Some(doc)
}

/// From the document to the port: a request whose body is an object whose member `model` is the id
/// of a model, as it is written, goes to the port of the first model with that id, its body
/// unchanged.
pub proof fn law_document_reaches_its_server(
    models: Seq<config::ModelView>,
    i: int,
    m: Map<Seq<char>, json::Json>,
    buf: Seq<u8>,
    header_end: nat,
)
    requires
        0 <= i < models.len(),
        forall|j: int| 0 <= j < i ==> (#[trigger] models[j]).id != models[i].id,
        m.contains_key("model"@),
        m["model"@] == json::Json::Text(models[i].id),
        carries_document(buf, header_end, json::Json::Object(m)),
    ensures
        ({
            let head = text::utf8_lossy(buf.take(header_end as int));
            let next = proxy::dispatch(models, buf, header_end);
            &&& next.action == proxy::ActionView::CheckRunning(models[i].port)
            &&& next.state == (proxy::StateView::Check {
                port: models[i].port,
                request: http::forwarded(
                    head,
                    buf.skip(header_end as int + 4),
                    models[i].port,
                ),
            })
        }),
{
    law_configured_model_is_served(models, i, buf, header_end);
}

/// From the document to the port, with a profile: a request whose body names the id of a model, a
/// slash and one of its profiles goes to the port of that model, its body printed anew with the
/// parameters of the profile.
pub proof fn law_document_goes_out_with_its_profile(
    models: Seq<config::ModelView>,
    i: int,
    profile: config::ProfileView,
    m: Map<Seq<char>, json::Json>,
    buf: Seq<u8>,
    header_end: nat,
)
    requires
        0 <= i < models.len(),
        forall|j: int| 0 <= j < i ==> (#[trigger] models[j]).id != models[i].id,
        config::profile_of(models[i].profiles, profile.name) == Some(profile),
        !profile.name.contains('/'),
        forall|j: int|
            0 <= j < models.len() ==> (#[trigger] models[j]).id != models[i].id + seq!['/']
                + profile.name,
        m.contains_key("model"@),
        m["model"@] == json::Json::Text(models[i].id + seq!['/'] + profile.name),
        carries_document(buf, header_end, json::Json::Object(m)),
    ensures
        ({
            let head = text::utf8_lossy(buf.take(header_end as int));
            let sent = json::compact_bytes(body::profiled(json::Json::Object(m), profile));
            let next = proxy::dispatch(models, buf, header_end);
            &&& next.action == proxy::ActionView::CheckRunning(models[i].port)
            &&& next.state == (proxy::StateView::Check {
                port: models[i].port,
                request: http::forwarded(head, sent, models[i].port),
            })
        }),
{
    law_named_profile_is_applied(models, i, profile, buf, header_end);
}

/// A request for a model whose body names none, because it is no object, has no member `model`, or
/// one that is no text, is refused with status 400; one that names an id that no model has, with
/// status 404 and that id.
pub proof fn law_document_without_a_model_is_refused(
    models: Seq<config::ModelView>,
    doc: json::Json,
    id: Seq<char>,
    buf: Seq<u8>,
    header_end: nat,
)
    requires
        carries_document(buf, header_end, doc),
    ensures
        ({
            let next = proxy::dispatch(models, buf, header_end);
            &&& !(doc matches json::Json::Object(m) && m.contains_key("model"@) && m["model"@]
                is Text) ==> next == (proxy::StepView {
                state: proxy::StateView::Done,
                action: proxy::ActionView::Reply(
                    error_answer(400, "Missing model field in request body"@),
                ),
            })
            &&& (doc matches json::Json::Object(m) && m.contains_key("model"@) && m["model"@]
                == json::Json::Text(id)) && !id.contains('/') && (forall|j: int|
                0 <= j < models.len() ==> (#[trigger] models[j]).id != id) ==> next == (
            proxy::StepView {
                state: proxy::StateView::Done,
                action: proxy::ActionView::Reply(error_answer(404, "Unknown model: "@ + id)),
            })
        }),
{
    config::lemma_model_index_all(models, id);
    if !id.contains('/') {
        body::law_plain_id_has_no_profile(id);
    }
    replies::law_outcomes_are_told(Ok(seq![]), 400, "Missing model field in request body"@);
    replies::law_outcomes_are_told(Ok(seq![]), 404, "Unknown model: "@ + id);
}

/// The answer that tells of a failure.
pub open spec fn error_answer(status: u16, message: Seq<char>) -> Seq<u8> {
    http::answer(
        status,
        json::compact_text(json::Json::Object(map!["error"@ => json::Json::Text(message)])),
    )
}

/// A request for a model with no body at all, or one that is no JSON, is refused with status 400.
pub proof fn law_body_without_document_is_refused(
    models: Seq<config::ModelView>,
    buf: Seq<u8>,
    header_end: nat,
)
    requires
        ({
            let h = http::head_of(text::utf8_lossy(buf.take(header_end as int)));
            proxy::route_of(h.method, h.path) is Model
        }),
        header_end + 4 <= buf.len(),
        header_end + 4 == buf.len() || json::parsed(buf.skip(header_end as int + 4)) is None,
    ensures
        proxy::dispatch(models, buf, header_end) == (proxy::StepView {
            state: proxy::StateView::Done,
            action: proxy::ActionView::Reply(
                error_answer(400, "Missing model field in request body"@),
            ),
        }),
{
    replies::law_outcomes_are_told(Ok(seq![]), 400, "Missing model field in request body"@);
}

// ── Bringing a server up, from the first check to the forwarded request ─────

/// A connection that has found its server not ready `n` times, and waited after each.
pub open spec fn waited(
    models: Seq<config::ModelView>,
    state: proxy::StateView,
    n: nat,
) -> proxy::StateView
    decreases n,
{
    if n == 0 {
        state
    } else {
        let before = waited(models, state, (n - 1) as nat);
        let paused = proxy::step(models, before, proxy::EventView::Probed(false)).state;
        proxy::step(models, paused, proxy::EventView::Paused).state
    }
}

/// Waiting leaves a connection where it was but for the count.
proof fn lemma_waited(models: Seq<config::ModelView>, port: u16, request: Seq<u8>, n: nat)
    requires
        n < 120,
    ensures
        waited(models, proxy::StateView::Probe { port, request, tries: 0 }, n) == (
        proxy::StateView::Probe { port, request, tries: n as u32 }),
    decreases n,
{
    if n > 0 {
        lemma_waited(models, port, request, (n - 1) as nat);
    }
}

/// A request for a server that does not run starts it, waits until it is ready, connects and sends
/// the request, whichever of the 120 questions is the first to find it ready. While it is not, the
/// connection waits; where the last question does not find it ready either, the client is told.
pub proof fn law_cold_server_gets_the_request(
    models: Seq<config::ModelView>,
    port: u16,
    request: Seq<u8>,
    n: nat,
)
    requires
        n < 120,
    ensures
        ({
            let s1 = proxy::step(
                models,
                proxy::StateView::Check { port, request },
                proxy::EventView::Checked(false),
            );
            let s2 = proxy::step(models, s1.state, proxy::EventView::Started(Ok(())));
            let asked = waited(models, s2.state, n);
            let ready = proxy::step(models, asked, proxy::EventView::Probed(true));
            let sent = proxy::step(models, ready.state, proxy::EventView::Connected(Ok(())));
            let done = proxy::step(models, sent.state, proxy::EventView::Forwarded(true));
            let not_ready = proxy::step(models, asked, proxy::EventView::Probed(false));
            let again = proxy::step(models, not_ready.state, proxy::EventView::Paused);
            &&& s1.action == proxy::ActionView::Start(port)
            &&& s2.action == proxy::ActionView::ProbeReady(port)
            &&& ready.action == proxy::ActionView::Connect(port)
            &&& sent.action == proxy::ActionView::Forward(request)
            &&& done.action == proxy::ActionView::Touch(port) && done.state is Done
            &&& n < 119 ==> not_ready.action is Pause && again.action
                == proxy::ActionView::ProbeReady(port)
            &&& n == 119 ==> not_ready == (proxy::StepView {
                state: proxy::StateView::Done,
                action: proxy::ActionView::Reply(
                    error_answer(503, "Model loading timeout after 120s"@),
                ),
            })
        }),
{
    lemma_waited(models, port, request, n);
    replies::law_outcomes_are_told(Ok(seq![]), 503, "Model loading timeout after 120s"@);
}

/// A request for a server that runs is sent to it at once.
pub proof fn law_warm_server_gets_the_request(
    models: Seq<config::ModelView>,
    port: u16,
    request: Seq<u8>,
)
    ensures
        ({
            let found = proxy::step(
                models,
                proxy::StateView::Check { port, request },
                proxy::EventView::Checked(true),
            );
            let sent = proxy::step(models, found.state, proxy::EventView::Connected(Ok(())));
            let done = proxy::step(models, sent.state, proxy::EventView::Forwarded(true));
            let lost = proxy::step(models, sent.state, proxy::EventView::Forwarded(false));
            &&& found.action == proxy::ActionView::Connect(port)
            &&& sent.action == proxy::ActionView::Forward(request)
            &&& done.action == proxy::ActionView::Touch(port) && done.state is Done
            &&& lost.action is Close && lost.state is Done
        }),
{
}

/// A server that says it is ready is connected to, after however many questions.
pub proof fn law_ready_server_is_connected_to(
    models: Seq<config::ModelView>,
    port: u16,
    request: Seq<u8>,
    tries: u32,
)
    ensures
        proxy::step(
            models,
            proxy::StateView::Probe { port, request, tries },
            proxy::EventView::Probed(true),
        ) == (proxy::StepView {
            state: proxy::StateView::Connect { port, request },
            action: proxy::ActionView::Connect(port),
        }),
{
}

/// On its way to a server a request fails in three ways only, each told with its cause: the server
/// does not start, it is not ready at the last of 120 questions, or it refuses the connection.
pub proof fn law_request_fails_in_three_ways(
    models: Seq<config::ModelView>,
    state: proxy::StateView,
    event: proxy::EventView,
    port: u16,
    request: Seq<u8>,
)
    requires
        carries(state, port, request),
        awaits(state, event),
    ensures
        ({
            let next = proxy::step(models, state, event);
            let too_late = event == proxy::EventView::Probed(false) && (state
                matches proxy::StateView::Probe { tries, .. } && tries == 119);
            let not_started = event matches proxy::EventView::Started(Err(_));
            let refused = event matches proxy::EventView::Connected(Err(_));
            &&& next.action is Reply <==> too_late || not_started || refused
            &&& !(next.action is Close)
            &&& too_late ==> next.action == proxy::ActionView::Reply(
                error_answer(503, "Model loading timeout after 120s"@),
            )
            &&& event matches proxy::EventView::Started(Err(e)) ==> next.action
                == proxy::ActionView::Reply(error_answer(503, "Failed to start model: "@ + e))
            &&& event matches proxy::EventView::Connected(Err(e)) ==> next.action
                == proxy::ActionView::Reply(error_answer(502, "Cannot connect to upstream: "@ + e))
        }),
{
    replies::law_outcomes_are_told(Ok(seq![]), 503, "Model loading timeout after 120s"@);
    if let proxy::EventView::Started(Err(e)) = event {
        replies::law_outcomes_are_told(Ok(seq![]), 503, "Failed to start model: "@ + e);
    }
    if let proxy::EventView::Connected(Err(e)) = event {
        replies::law_outcomes_are_told(Ok(seq![]), 502, "Cannot connect to upstream: "@ + e);
    }
}

/// The answers to the two questions that the proxy takes elsewhere: the health of all models by
/// the ports in use, and how a stop went.
pub proof fn law_questions_are_answered(
    models: Seq<config::ModelView>,
    ports: Seq<u16>,
    outcome: Result<Seq<char>, Seq<char>>,
)
    ensures
        proxy::step(models, proxy::StateView::Health, proxy::EventView::Running(ports)) == (
        proxy::StepView {
            state: proxy::StateView::Done,
            action: proxy::ActionView::Reply(
                http::answer(200, json::compact_text(replies::health_json(models, ports))),
            ),
        }),
        proxy::step(models, proxy::StateView::Unload, proxy::EventView::Unloaded(outcome)) == (
        proxy::StepView {
            state: proxy::StateView::Done,
            action: proxy::ActionView::Reply(replies::unload_bytes(outcome)),
        }),
{
}

// ── Reading, step by step ───────────────────────────────────────────────────

/// A client that sends nothing, before or within its header block, is not answered.
pub proof fn law_silent_client_is_not_answered(models: Seq<config::ModelView>, buf: Seq<u8>)
    ensures
        proxy::step(models, proxy::StateView::Head { buf }, proxy::EventView::NoData) == (
        proxy::StepView { state: proxy::StateView::Done, action: proxy::ActionView::Close }),
        proxy::step(models, proxy::StateView::Head { buf }, proxy::EventView::Data(seq![])) == (
        proxy::StepView { state: proxy::StateView::Done, action: proxy::ActionView::Close }),
{
}

/// A body is read up to the length that its request declared. What comes with the last of it and
/// is too much is dropped; where the client stops earlier, the request is taken as it is.
pub proof fn law_body_is_read_to_its_length(
    models: Seq<config::ModelView>,
    buf: Seq<u8>,
    header_end: nat,
    remaining: nat,
    data: Seq<u8>,
)
    requires
        remaining > 0,
    ensures
        ({
            let state = proxy::StateView::Body { buf, header_end, remaining };
            let next = proxy::step(models, state, proxy::EventView::Data(data));
            &&& data.len() >= remaining ==> next == proxy::dispatch(
                models,
                buf + data.take(remaining as int),
                header_end,
            )
            &&& 0 < data.len() < remaining ==> next.action is Read && next.state == (
            proxy::StateView::Body {
                buf: buf + data,
                header_end,
                remaining: (remaining - data.len()) as nat,
            })
            &&& data.len() == 0 ==> next == proxy::dispatch(models, buf, header_end)
            &&& proxy::step(models, state, proxy::EventView::NoData) == proxy::dispatch(
                models,
                buf,
                header_end,
            )
        }),
{
}

/// A header block is read until an empty line is in it or a read brings less than 8192 bytes. Then
/// the body is read on where it is shorter than the header block declares, and else the request is
/// decided about.
pub proof fn law_header_is_read_to_its_end(
    models: Seq<config::ModelView>,
    buf: Seq<u8>,
    data: Seq<u8>,
)
    requires
        data.len() > 0,
    ensures
        ({
            let all = buf + data;
            let next = proxy::step(
                models,
                proxy::StateView::Head { buf },
                proxy::EventView::Data(data),
            );
            let end = http::header_end(all);
            let declared = http::head_of(text::utf8_lossy(all.take(end as int))).content_length;
            let whole = text::contains_part(all, seq![13u8, 10, 13, 10]) || data.len() < 8192;
            &&& !whole ==> next.action is Read && next.state == (proxy::StateView::Head {
                buf: all,
            })
            &&& whole && all.len() >= end + 4 + declared ==> next == proxy::dispatch(
                models,
                all,
                end,
            )
            &&& whole && end + 4 <= all.len() < end + 4 + declared ==> next.action is Read
                && next.state == (proxy::StateView::Body {
                buf: all,
                header_end: end,
                remaining: (end + 4 + declared - all.len()) as nat,
            })
            &&& whole && all.len() < end + 4 && declared > 0 ==> next.action is Read && next.state
                == (proxy::StateView::Body { buf: all, header_end: end, remaining: declared })
            &&& whole && all.len() < end + 4 && declared == 0 ==> next == proxy::dispatch(
                models,
                all,
                end,
            )
        }),
{
    assert(http::terminator() == seq![13u8, 10, 13, 10]);
}

/// What a connection does not wait for ends it.
pub proof fn law_unexpected_event_closes(
    models: Seq<config::ModelView>,
    state: proxy::StateView,
    event: proxy::EventView,
)
    requires
        match state {
            proxy::StateView::Head { .. } => !(event is Data),
            proxy::StateView::Body { .. } => !(event is Data) && !(event is NoData),
            proxy::StateView::Health => !(event is Running),
            proxy::StateView::Unload => !(event is Unloaded),
            proxy::StateView::Forward { .. } => !(event is Forwarded),
            proxy::StateView::Done => true,
            _ => !awaits(state, event),
        },
    ensures
        proxy::step(models, state, event) == (proxy::StepView {
            state: proxy::StateView::Done,
            action: proxy::ActionView::Close,
        }),
{
}

} // verus!
