//! What the command line reports of the server's JSON answers: the list of
//! models, a submitted validation request, and the pending validation
//! requests of the user's models. Each report is computed from the parsed
//! answer; a body that is not the expected JSON is shown as it came.
use vstd::prelude::*;
use crate::json::{JsonValue, JsonKind, json_parse, parse_json, field_of, str_of, str_member_or, array_of, get_field, str_field_or, as_array};

verus! {

/// One model of the model list, each field `-` when missing.
#[derive(Debug)]
pub struct ModelSummary {
    pub id: String,
    pub name: String,
    pub vector_format: String,
    pub created_at: String,
    pub updated_at: String,
}

/// The report of the model list.
#[derive(Debug)]
pub enum ModelsReport {
    /// The body is not a JSON array: it is shown as it came.
    Raw,
    /// The body is an empty array.
    NoModels,
    /// One summary per element of the array, in order.
    Models(Vec<ModelSummary>),
}

/// The summary of model `item` matches the JSON item.
pub open spec fn summarises_model(s: ModelSummary, item: JsonValue) -> bool {
    &&& s.id@ == str_member_or(item, "id"@, "-"@)
    &&& s.name@ == str_member_or(item, "name"@, "-"@)
    &&& s.vector_format@ == str_member_or(item, "vectorFormat"@, "-"@)
    &&& s.created_at@ == str_member_or(item, "createdAt"@, "-"@)
    &&& s.updated_at@ == str_member_or(item, "updatedAt"@, "-"@)
}

/// `r` is the report of the model list parsed as `parsed`.
pub open spec fn is_models_report(r: ModelsReport, parsed: Option<JsonValue>) -> bool {
    match array_of(parsed) {
        None => r is Raw,
        Some(items) => if items.len() == 0 {
            r is NoModels
        } else {
            match r {
                ModelsReport::Models(s) => s@.len() == items.len() && forall|i: int|
                    0 <= i < items.len() ==> summarises_model(#[trigger] s@[i], items[i]),
                _ => false,
            }
        },
    }
}

fn summarise_model(item: &JsonValue) -> (s: ModelSummary)
    ensures
        summarises_model(s, *item),
{
    ModelSummary {
        id: str_field_or(item, "id", "-"),
        name: str_field_or(item, "name", "-"),
        vector_format: str_field_or(item, "vectorFormat", "-"),
        created_at: str_field_or(item, "createdAt", "-"),
        updated_at: str_field_or(item, "updatedAt", "-"),
    }
}

/// The report of a model list that was parsed as `parsed`.
pub fn models_report_from(parsed: &Option<JsonValue>) -> (r: ModelsReport)
    ensures
        is_models_report(r, *parsed),
{
    let items = match parsed {
        Some(v) => as_array(Some(v)),
        None => None,
    };
    match items {
        None => ModelsReport::Raw,
        Some(items) => {
            if items.len() == 0 {
                return ModelsReport::NoModels;
            }
            let mut out: Vec<ModelSummary> = Vec::new();
            let mut i: usize = 0;
            while i < items.len()
                invariant
                    i <= items@.len(),
                    out@.len() == i,
                    forall|j: int| 0 <= j < i ==> summarises_model(#[trigger] out@[j], items@[j]),
                decreases items@.len() - i,
            {
                out.push(summarise_model(&items[i]));
                i = i + 1;
            }
            ModelsReport::Models(out)
        },
    }
}

/// The report of the model list that the server answered with `body`.
pub fn models_report(body: &str) -> (r: ModelsReport)
    ensures
        is_models_report(r, json_parse(body@)),
{
    let parsed = parse_json(body);
    models_report_from(&parsed)
}


/// `list` joined with `sep` between consecutive elements, as `join` does.
pub open spec fn join_spec(list: Seq<Seq<char>>, sep: Seq<char>) -> Seq<char>
    decreases list.len(),
{
    if list.len() == 0 {
        Seq::empty()
    } else if list.len() == 1 {
        list[0]
    } else {
        join_spec(list.drop_last(), sep) + sep + list.last()
    }
}

/// How an element of the proof hash is shown: a number by its text, any other
/// value by its JSON serialisation.
pub open spec fn hash_item_text(x: JsonValue) -> Seq<char> {
    match x.kind {
        JsonKind::Number(t) => t@,
        _ => x.text@,
    }
}

/// How the proof hash member is shown: an array as its items between
/// brackets, separated by commas; any other value as its JSON serialisation;
/// `-` when missing.
pub open spec fn proof_hash_text(field: Option<JsonValue>) -> Seq<char> {
    match field {
        Some(x) => match x.kind {
            JsonKind::Array(items) => "["@ + join_spec(items@.map_values(|i: JsonValue| hash_item_text(i)), ", "@) + "]"@,
            _ => x.text@,
        },
        None => "-"@,
    }
}

/// A submitted validation request, each field `-` when missing.
#[derive(Debug)]
pub struct ValidationRequestSummary {
    pub id: String,
    pub model_id: String,
    pub verifier_id: String,
    pub elf_file_url: String,
    pub json_url: String,
    pub proof_hash: String,
    pub status: String,
    pub created_at: String,
}

/// `s` is the summary of the validation request object `obj`.
pub open spec fn summarises_request(s: ValidationRequestSummary, obj: JsonValue) -> bool {
    &&& s.id@ == str_member_or(obj, "id"@, "-"@)
    &&& s.model_id@ == str_member_or(obj, "modelId"@, "-"@)
    &&& s.verifier_id@ == str_member_or(obj, "verifierId"@, "-"@)
    &&& s.elf_file_url@ == str_member_or(obj, "elfFileUrl"@, "-"@)
    &&& s.json_url@ == str_member_or(obj, "jsonUrl"@, "-"@)
    &&& s.proof_hash@ == proof_hash_text(field_of(obj, "proofHash"@))
    &&& s.status@ == str_member_or(obj, "status"@, "-"@)
    &&& s.created_at@ == str_member_or(obj, "createdAt"@, "-"@)
}

/// Whether a parsed answer is a JSON object.
pub open spec fn is_object(parsed: Option<JsonValue>) -> bool {
    match parsed {
        Some(v) => v.kind is Object,
        None => false,
    }
}

fn join_texts(items: &Vec<JsonValue>) -> (r: String)
    ensures
        r@ == join_spec(items@.map_values(|i: JsonValue| hash_item_text(i)), ", "@),
{
    let ghost texts = items@.map_values(|i: JsonValue| hash_item_text(i));
    let mut out = String::new();
    let mut i: usize = 0;
    while i < items.len()
        invariant
            i <= items@.len(),
            texts == items@.map_values(|i: JsonValue| hash_item_text(i)),
            out@ == join_spec(texts.take(i as int), ", "@),
        decreases items@.len() - i,
    {
        assert(texts.take(i + 1).drop_last() == texts.take(i as int));
        if i > 0 {
            out.append(", ");
        }
        match &items[i].kind {
            JsonKind::Number(t) => out.append(t.as_str()),
            _ => out.append(items[i].text.as_str()),
        }
        i = i + 1;
    }
    assert(texts.take(items@.len() as int) == texts);
    out
}

fn proof_hash_string(field: Option<&JsonValue>) -> (r: String)
    ensures
        r@ == proof_hash_text(match field {
            Some(x) => Some(*x),
            None => None,
        }),
{
    match field {
        Some(x) => match &x.kind {
            JsonKind::Array(items) => {
                let mut out = "[".to_owned();
                let joined = join_texts(items);
                out.append(joined.as_str());
                out.append("]");
                out
            },
            _ => x.text.clone(),
        },
        None => "-".to_owned(),
    }
}

/// The summary of a submitted validation request that was parsed as
/// `parsed`; `None` when it is not a JSON object (the body is then shown as
/// it came).
pub fn validation_request_report_from(parsed: &Option<JsonValue>) -> (r: Option<ValidationRequestSummary>)
    ensures
        r is Some <==> is_object(*parsed),
        r matches Some(s) ==> summarises_request(s, parsed->0),
{
    match parsed {
        Some(obj) => match &obj.kind {
            JsonKind::Object(_) => Some(ValidationRequestSummary {
                id: str_field_or(obj, "id", "-"),
                model_id: str_field_or(obj, "modelId", "-"),
                verifier_id: str_field_or(obj, "verifierId", "-"),
                elf_file_url: str_field_or(obj, "elfFileUrl", "-"),
                json_url: str_field_or(obj, "jsonUrl", "-"),
                proof_hash: proof_hash_string(get_field(obj, "proofHash")),
                status: str_field_or(obj, "status", "-"),
                created_at: str_field_or(obj, "createdAt", "-"),
            }),
            _ => None,
        },
        None => None,
    }
}

/// The summary of the validation request that the server answered with
/// `body`.
pub fn validation_request_report(body: &str) -> (r: Option<ValidationRequestSummary>)
    ensures
        r is Some <==> is_object(json_parse(body@)),
        r matches Some(s) ==> summarises_request(s, json_parse(body@)->0),
{
    let parsed = parse_json(body);
    validation_request_report_from(&parsed)
}


/// A pending validation request, each field `-` when missing.
#[derive(Debug)]
pub struct PendingRequest {
    pub id: String,
    pub verifier_id: String,
    pub elf_file_url: String,
    pub created_at: String,
}

/// A model with pending validation requests.
#[derive(Debug)]
pub struct PendingModel {
    /// The model's position in the answer, counted from 1.
    pub number: usize,
    /// The model's id, `-` when missing.
    pub model_id: String,
    /// The model's name, empty when missing.
    pub model_name: String,
    pub requests: Vec<PendingRequest>,
}

/// The report of the pending validation requests.
#[derive(Debug)]
pub enum PendingReport {
    /// The body is not an object with a `models` array: it is shown as it came.
    Raw,
    /// No model has a pending request.
    NoPending,
    /// The models with pending requests, in order.
    Pending(Vec<PendingModel>),
}

/// Whether validation request `vr` is pending: its `status` is the string
/// `pending`.
pub open spec fn is_pending(vr: JsonValue) -> bool {
    str_of(field_of(vr, "status"@)) == Some("pending"@)
}

/// The validation requests of model `m`: its `validationRequests` array, or
/// none.
pub open spec fn requests_of(m: JsonValue) -> Seq<JsonValue> {
    match array_of(field_of(m, "validationRequests"@)) {
        Some(items) => items,
        None => Seq::empty(),
    }
}

/// The pending validation requests of model `m`, in order.
pub open spec fn pending_of(m: JsonValue) -> Seq<JsonValue> {
    requests_of(m).filter(|vr: JsonValue| is_pending(vr))
}

pub open spec fn summarises_pending(p: PendingRequest, vr: JsonValue) -> bool {
    &&& p.id@ == str_member_or(vr, "id"@, "-"@)
    &&& p.verifier_id@ == str_member_or(vr, "verifierId"@, "-"@)
    &&& p.elf_file_url@ == str_member_or(vr, "elfFileUrl"@, "-"@)
    &&& p.created_at@ == str_member_or(vr, "createdAt"@, "-"@)
}

/// `g` reports model `m` at position `k` (from 0) of the answer.
pub open spec fn reports_model(g: PendingModel, m: JsonValue, k: int) -> bool {
    &&& g.number == k + 1
    &&& g.model_id@ == str_member_or(m, "id"@, "-"@)
    &&& g.model_name@ == str_member_or(m, "name"@, ""@)
    &&& g.requests@.len() == pending_of(m).len()
    &&& forall|i: int| 0 <= i < g.requests@.len() ==> summarises_pending(#[trigger] g.requests@[i], pending_of(m)[i])
}

/// The positions, among the first `k` models, of the models with pending
/// requests.
pub open spec fn models_with_pending(models: Seq<JsonValue>, k: nat) -> Seq<int>
    decreases k,
{
    if k == 0 {
        Seq::empty()
    } else if pending_of(models[k - 1]).len() > 0 {
        models_with_pending(models, (k - 1) as nat).push(k - 1)
    } else {
        models_with_pending(models, (k - 1) as nat)
    }
}

/// The `models` array of the answer, when the answer is an object that has
/// one.
pub open spec fn models_of(parsed: Option<JsonValue>) -> Option<Seq<JsonValue>> {
    if is_object(parsed) {
        array_of(field_of(parsed->0, "models"@))
    } else {
        None
    }
}

/// `r` is the report of the pending validation requests parsed as `parsed`.
pub open spec fn is_pending_report(r: PendingReport, parsed: Option<JsonValue>) -> bool {
    match models_of(parsed) {
        None => r is Raw,
        Some(models) => {
            let with = models_with_pending(models, models.len());
            if with.len() == 0 {
                r is NoPending
            } else {
                match r {
                    PendingReport::Pending(groups) => groups@.len() == with.len() && forall|i: int|
                        0 <= i < with.len() ==> reports_model(#[trigger] groups@[i], models[with[i]], with[i]),
                    _ => false,
                }
            }
        },
    }
}

fn summarise_pending(vr: &JsonValue) -> (p: PendingRequest)
    ensures
        summarises_pending(p, *vr),
{
    PendingRequest {
        id: str_field_or(vr, "id", "-"),
        verifier_id: str_field_or(vr, "verifierId", "-"),
        elf_file_url: str_field_or(vr, "elfFileUrl", "-"),
        created_at: str_field_or(vr, "createdAt", "-"),
    }
}

fn request_is_pending(vr: &JsonValue) -> (r: bool)
    ensures
        r == is_pending(*vr),
{
    match get_field(vr, "status") {
        Some(s) => match &s.kind {
            JsonKind::Str(t) => {
                let p = "pending".to_owned();
                *t == p
            },
            _ => false,
        },
        None => false,
    }
}

fn pending_requests(m: &JsonValue) -> (r: Vec<PendingRequest>)
    ensures
        r@.len() == pending_of(*m).len(),
        forall|i: int| 0 <= i < r@.len() ==> summarises_pending(#[trigger] r@[i], pending_of(*m)[i]),
{
    let ghost pred = |vr: JsonValue| is_pending(vr);
    let empty: Vec<JsonValue> = Vec::new();
    let vrs = match as_array(get_field(m, "validationRequests")) {
        Some(items) => items,
        None => &empty,
    };
    assert(vrs@ == requests_of(*m));
    let mut out: Vec<PendingRequest> = Vec::new();
    let mut i: usize = 0;
    while i < vrs.len()
        invariant
            i <= vrs@.len(),
            vrs@ == requests_of(*m),
            pred == (|vr: JsonValue| is_pending(vr)),
            out@.len() == vrs@.take(i as int).filter(pred).len(),
            forall|j: int| 0 <= j < out@.len() ==> summarises_pending(#[trigger] out@[j], vrs@.take(i as int).filter(pred)[j]),
        decreases vrs@.len() - i,
    {
        reveal_with_fuel(Seq::<_>::filter, 1);
        assert(vrs@.take(i + 1).drop_last() == vrs@.take(i as int));
        if request_is_pending(&vrs[i]) {
            out.push(summarise_pending(&vrs[i]));
        }
        i = i + 1;
    }
    assert(vrs@.take(vrs@.len() as int) == vrs@);
    out
}

/// The report of pending validation requests that was parsed as `parsed`.
pub fn pending_report_from(parsed: &Option<JsonValue>) -> (r: PendingReport)
    ensures
        is_pending_report(r, *parsed),
{
    let obj = match parsed {
        Some(v) => v,
        None => {
            return PendingReport::Raw;
        },
    };
    let is_obj = match &obj.kind {
        JsonKind::Object(_) => true,
        _ => false,
    };
    if !is_obj {
        return PendingReport::Raw;
    }
    let models = match as_array(get_field(obj, "models")) {
        Some(items) => items,
        None => {
            return PendingReport::Raw;
        },
    };
    let mut groups: Vec<PendingModel> = Vec::new();
    let mut mi: usize = 0;
    while mi < models.len()
        invariant
            mi <= models@.len(),
            models_of(*parsed) == Some(models@),
            groups@.len() == models_with_pending(models@, mi as nat).len(),
            forall|i: int| 0 <= i < groups@.len() ==> {
                let with = models_with_pending(models@, mi as nat);
                reports_model(#[trigger] groups@[i], models@[with[i]], with[i])
            },
            forall|i: int| 0 <= i < models_with_pending(models@, mi as nat).len() ==>
                0 <= #[trigger] models_with_pending(models@, mi as nat)[i] < mi,
        decreases models@.len() - mi,
    {
        let m = &models[mi];
        let requests = pending_requests(m);
        if requests.len() > 0 {
            let g = PendingModel {
                number: mi + 1,
                model_id: str_field_or(m, "id", "-"),
                model_name: str_field_or(m, "name", ""),
                requests,
            };
            groups.push(g);
        }
        mi = mi + 1;
    }
    if groups.len() == 0 {
        PendingReport::NoPending
    } else {
        PendingReport::Pending(groups)
    }
}

/// The report of the pending validation requests that the server answered
/// with `body`.
pub fn pending_report(body: &str) -> (r: PendingReport)
    ensures
        is_pending_report(r, json_parse(body@)),
{
    let parsed = parse_json(body);
    pending_report_from(&parsed)
}

/// Every request that the report lists for a model is pending.
pub proof fn lemma_listed_requests_are_pending(m: JsonValue, i: int)
    requires
        0 <= i < pending_of(m).len(),
    ensures
        is_pending(pending_of(m)[i]),
{
    requests_of(m).lemma_filter_pred(|vr: JsonValue| is_pending(vr), i);
}

/// The number of pending requests over the first `k` reported models.
pub open spec fn pending_count(groups: Seq<PendingModel>, k: nat) -> int
    decreases k,
{
    if k == 0 {
        0
    } else {
        pending_count(groups, (k - 1) as nat) + groups[k - 1].requests@.len()
    }
}

/// The total number of pending requests of a report.
pub fn pending_total(groups: &Vec<PendingModel>) -> (r: u128)
    ensures
        r == pending_count(groups@, groups@.len()),
{
    let mut total: u128 = 0;
    let mut i: usize = 0;
    while i < groups.len()
        invariant
            i <= groups@.len(),
            total == pending_count(groups@, i as nat),
            total <= i * 0x1_0000_0000_0000_0000,
        decreases groups@.len() - i,
    {
        let n = groups[i].requests.len();
        assert(total + n <= (i + 1) * 0x1_0000_0000_0000_0000) by (nonlinear_arith)
            requires
                total <= i * 0x1_0000_0000_0000_0000,
                n < 0x1_0000_0000_0000_0000,
        ;
        assert((i + 1) * 0x1_0000_0000_0000_0000 <= 0x1_0000_0000_0000_0000 * 0x1_0000_0000_0000_0000) by (nonlinear_arith)
            requires
                i < 0x1_0000_0000_0000_0000,
        ;
        total = total + n as u128;
        i = i + 1;
    }
    total
}

/// `shown` is how a report shows member `key` of `obj`: the member's text
/// when it is a string, `missing` when `obj` has no such member or it is not
/// a string. What other members hold plays no part.
pub open spec fn shows_member(shown: Seq<char>, obj: JsonValue, key: Seq<char>, missing: Seq<char>) -> bool {
    match field_of(obj, key) {
        Some(v) => match v.kind {
            JsonKind::Str(t) => shown == t@,
            _ => shown == missing,
        },
        None => shown == missing,
    }
}

/// Each field of a validation request summary shows the member of the same
/// name: `id`, `modelId`, `verifierId`, `elfFileUrl`, `jsonUrl`, `status` and
/// `createdAt`, each `-` when missing; the proof hash is `-` when missing and
/// the member's JSON text when it is not an array.
pub proof fn lemma_request_summary_shows_members(s: ValidationRequestSummary, obj: JsonValue)
    requires
        summarises_request(s, obj),
    ensures
        shows_member(s.id@, obj, "id"@, "-"@),
        shows_member(s.model_id@, obj, "modelId"@, "-"@),
        shows_member(s.verifier_id@, obj, "verifierId"@, "-"@),
        shows_member(s.elf_file_url@, obj, "elfFileUrl"@, "-"@),
        shows_member(s.json_url@, obj, "jsonUrl"@, "-"@),
        shows_member(s.status@, obj, "status"@, "-"@),
        shows_member(s.created_at@, obj, "createdAt"@, "-"@),
        field_of(obj, "proofHash"@) is None ==> s.proof_hash@ == "-"@,
        field_of(obj, "proofHash"@) is Some && !(field_of(obj, "proofHash"@)->0.kind is Array)
            ==> s.proof_hash@ == field_of(obj, "proofHash"@)->0.text@,
{
}

/// Each field of a model summary shows the member of the same name: `id`,
/// `name`, `vectorFormat`, `createdAt` and `updatedAt`, each `-` when missing.
pub proof fn lemma_model_summary_shows_members(s: ModelSummary, item: JsonValue)
    requires
        summarises_model(s, item),
    ensures
        shows_member(s.id@, item, "id"@, "-"@),
        shows_member(s.name@, item, "name"@, "-"@),
        shows_member(s.vector_format@, item, "vectorFormat"@, "-"@),
        shows_member(s.created_at@, item, "createdAt"@, "-"@),
        shows_member(s.updated_at@, item, "updatedAt"@, "-"@),
{
}

/// A reported model shows its `id` (`-` when missing) and `name` (empty when
/// missing), is numbered from 1 by its position, and each of its listed
/// requests shows the request's `id`, `verifierId`, `elfFileUrl` and
/// `createdAt`, each `-` when missing.
pub proof fn lemma_pending_model_shows_members(g: PendingModel, m: JsonValue, k: int, i: int)
    requires
        reports_model(g, m, k),
        0 <= i < g.requests@.len(),
    ensures
        g.number == k + 1,
        shows_member(g.model_id@, m, "id"@, "-"@),
        shows_member(g.model_name@, m, "name"@, ""@),
        shows_member(g.requests@[i].id@, pending_of(m)[i], "id"@, "-"@),
        shows_member(g.requests@[i].verifier_id@, pending_of(m)[i], "verifierId"@, "-"@),
        shows_member(g.requests@[i].elf_file_url@, pending_of(m)[i], "elfFileUrl"@, "-"@),
        shows_member(g.requests@[i].created_at@, pending_of(m)[i], "createdAt"@, "-"@),
{
    assert(summarises_pending(g.requests@[i], pending_of(m)[i]));
}

} // verus!
