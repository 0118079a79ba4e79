//! The scenario catalog: servers, their capability descriptors, and the
//! named scenarios, loaded once from a structured descriptor and never
//! mutated.
//!
//! The loader checks the catalog's invariant: every scenario names a server
//! present in the server map, carries a positive id and at least one client
//! identifier.  Maps are kept as vectors of name–definition pairs, in the
//! order the descriptor lists them.

use vstd::prelude::*;

use crate::json::{jv_get, lemma_json_view_fields, lemma_json_view_seq, str_eq, Json, JsonV};

verus! {

/// A named tool's descriptor.
#[derive(Debug)]
pub struct ToolDefinition {
    pub description: String,
}

/// A named resource's descriptor.
#[derive(Debug)]
pub struct ResourceDefinition {
    pub description: String,
}

/// A named resource template's descriptor.
#[derive(Debug)]
pub struct ResourceTemplateDefinition {
    pub description: String,
    pub params: Vec<(String, ParamDefinition)>,
}

/// A named prompt's descriptor.
#[derive(Debug)]
pub struct PromptDefinition {
    pub description: String,
}

/// A named prompt template's descriptor.
#[derive(Debug)]
pub struct PromptTemplateDefinition {
    pub description: String,
    pub params: Vec<(String, ParamDefinition)>,
}

/// A template parameter's descriptor.
#[derive(Debug)]
pub struct ParamDefinition {
    pub description: String,
}

/// One server identity's capability descriptor.
#[derive(Debug)]
pub struct ServerDefinition {
    pub description: String,
    pub tools: Vec<(String, ToolDefinition)>,
    pub resources: Vec<(String, ResourceDefinition)>,
    pub resource_templates: Vec<(String, ResourceTemplateDefinition)>,
    pub prompts: Vec<(String, PromptDefinition)>,
    pub prompt_templates: Vec<(String, PromptTemplateDefinition)>,
}

/// One scenario: a numbered compliance case against a named server.
#[derive(Debug)]
pub struct ScenarioDefinition {
    pub id: u32,
    pub description: String,
    pub client_ids: Vec<String>,
    pub server_name: String,
    pub http_only: bool,
}

/// The whole catalog.
#[derive(Debug)]
pub struct Scenarios {
    pub servers: Vec<(String, ServerDefinition)>,
    pub scenarios: Vec<ScenarioDefinition>,
}

/// Whether some server in the map bears this name.
pub open spec fn has_server_name(servers: Seq<(String, ServerDefinition)>, name: Seq<char>) -> bool {
    exists|k: int| 0 <= k < servers.len() && servers[k].0@ == name
}

/// The catalog's invariant: every scenario has a positive id, at least one
/// client identifier, and a server name present in the server map.
pub open spec fn catalog_wf(c: Scenarios) -> bool {
    forall|i: int|
        0 <= i < c.scenarios@.len() ==> {
            let s = #[trigger] c.scenarios@[i];
            &&& s.id >= 1
            &&& s.client_ids@.len() > 0
            &&& has_server_name(c.servers@, s.server_name@)
        }
}

/// A name–description map read from an object: every entry must carry a
/// textual `description` field.
pub open spec fn descs_of_fields(fs: Seq<(Seq<char>, JsonV)>) -> Option<
    Seq<(Seq<char>, Seq<char>)>,
>
    decreases fs.len(),
{
    if fs.len() == 0 {
        Some(Seq::empty())
    } else {
        match jv_get(fs[0].1, "description"@) {
            Some(JsonV::Str(d)) => match descs_of_fields(fs.drop_first()) {
                Some(rest) => Some(seq![(fs[0].0, d)] + rest),
                None => None,
            },
            _ => None,
        }
    }
}

/// A name–description map read from a value, which must be an object.
pub open spec fn descs_of(v: JsonV) -> Option<Seq<(Seq<char>, Seq<char>)>> {
    match v {
        JsonV::Obj(fs) => descs_of_fields(fs),
        _ => None,
    }
}

/// Whether a value has a template's shape: a textual description and a
/// parameter map of descriptions.
pub open spec fn tmpl_shape_ok(v: JsonV) -> bool {
    &&& jv_get(v, "description"@) matches Some(JsonV::Str(_))
    &&& jv_get(v, "params"@) matches Some(pv) && descs_of(pv) is Some
}

/// Whether every entry of an object's field sequence has a template's shape.
pub open spec fn tmpls_ok_fields(fs: Seq<(Seq<char>, JsonV)>) -> bool {
    forall|i: int| 0 <= i < fs.len() ==> tmpl_shape_ok(#[trigger] fs[i].1)
}

/// Whether a value is an object of template-shaped entries.
pub open spec fn tmpls_ok(v: JsonV) -> bool {
    v matches JsonV::Obj(fs) && tmpls_ok_fields(fs)
}

/// Whether a value has a server definition's shape.
pub open spec fn server_shape_ok(v: JsonV) -> bool {
    &&& jv_get(v, "description"@) matches Some(JsonV::Str(_))
    &&& jv_get(v, "tools"@) matches Some(t) && descs_of(t) is Some
    &&& jv_get(v, "resources"@) matches Some(r) && descs_of(r) is Some
    &&& jv_get(v, "resourceTemplates"@) matches Some(rt) && tmpls_ok(rt)
    &&& jv_get(v, "prompts"@) matches Some(p) && descs_of(p) is Some
    &&& jv_get(v, "promptTemplates"@) matches Some(pt) && tmpls_ok(pt)
}

/// The strings of an array of strings.
pub open spec fn strs_of_seq(items: Seq<JsonV>) -> Option<Seq<Seq<char>>>
    decreases items.len(),
{
    if items.len() == 0 {
        Some(Seq::empty())
    } else {
        match items[0] {
            JsonV::Str(s) => match strs_of_seq(items.drop_first()) {
                Some(rest) => Some(seq![s] + rest),
                None => None,
            },
            _ => None,
        }
    }
}

/// The denotation of one scenario entry.
pub struct ScenV {
    pub id: int,
    pub description: Seq<char>,
    pub client_ids: Seq<Seq<char>>,
    pub server_name: Seq<char>,
    pub http_only: bool,
}

/// The scenario a value denotes, if it has a scenario's shape; the id must
/// be positive and fit the id type, and at least one client identifier must
/// be named.
pub open spec fn scen_of_jv(v: JsonV) -> Option<ScenV> {
    match (
        jv_get(v, "id"@),
        jv_get(v, "description"@),
        jv_get(v, "client_ids"@),
        jv_get(v, "server_name"@),
    ) {
        (
            Some(JsonV::Int(n)),
            Some(JsonV::Str(d)),
            Some(JsonV::Arr(ids)),
            Some(JsonV::Str(sn)),
        ) => {
            if 1 <= n <= u32::MAX {
                match strs_of_seq(ids) {
                    Some(cids) => if cids.len() > 0 {
                        match jv_get(v, "http_only"@) {
                            Some(JsonV::Bool(b)) => Some(
                                ScenV {
                                    id: n,
                                    description: d,
                                    client_ids: cids,
                                    server_name: sn,
                                    http_only: b,
                                },
                            ),
                            None => Some(
                                ScenV {
                                    id: n,
                                    description: d,
                                    client_ids: cids,
                                    server_name: sn,
                                    http_only: false,
                                },
                            ),
                            _ => None,
                        }
                    } else {
                        None
                    },
                    None => None,
                }
            } else {
                None
            }
        },
        _ => None,
    }
}

/// The scenarios a value sequence denotes, if every entry has the shape.
pub open spec fn scens_of_seq(items: Seq<JsonV>) -> Option<Seq<ScenV>>
    decreases items.len(),
{
    if items.len() == 0 {
        Some(Seq::empty())
    } else {
        match scen_of_jv(items[0]) {
            Some(s) => match scens_of_seq(items.drop_first()) {
                Some(rest) => Some(seq![s] + rest),
                None => None,
            },
            None => None,
        }
    }
}

/// Whether an exec scenario record carries exactly a denoted scenario.
pub open spec fn scen_matches(s: ScenarioDefinition, v: ScenV) -> bool {
    &&& s.id as int == v.id
    &&& s.description@ == v.description
    &&& s.client_ids@.len() == v.client_ids.len()
    &&& (forall|k: int| 0 <= k < v.client_ids.len() ==> (#[trigger] s.client_ids@[k])@
        == v.client_ids[k])
    &&& s.server_name@ == v.server_name
    &&& s.http_only == v.http_only
}


/// The name–description pairs an exec vector denotes.
pub open spec fn pairs_view(s: Seq<(String, String)>) -> Seq<(Seq<char>, Seq<char>)>
    decreases s,
{
    if s.len() == 0 {
        Seq::empty()
    } else {
        seq![(s[0].0@, s[0].1@)] + pairs_view(s.drop_first())
    }
}

/// Length and elements of a pair sequence's denotation.
pub proof fn lemma_pairs_view(s: Seq<(String, String)>)
    ensures
        pairs_view(s).len() == s.len(),
        forall|i: int| 0 <= i < s.len() ==> pairs_view(s)[i] == (s[i].0@, s[i].1@),
    decreases s.len(),
{
    if s.len() > 0 {
        lemma_pairs_view(s.drop_first());
    }
}

/// Read a name–description map's entries from field `idx` on.
fn parse_descs_from(fields: &Vec<(String, Json)>, idx: usize) -> (r: Option<Vec<(String, String)>>)
    requires
        idx <= fields@.len(),
    ensures
        match r {
            Some(out) => descs_of_fields(crate::json::json_view_fields(fields@).skip(idx as int))
                == Some(pairs_view(out@)),
            None => descs_of_fields(crate::json::json_view_fields(fields@).skip(idx as int))
                is None,
        },
    decreases fields@.len() - idx,
{
    proof {
        lemma_json_view_fields(fields@);
    }
    if idx < fields.len() {
        let d = match fields[idx].1.get("description") {
            Some(x) => match x.str_value() {
                Some(s) => s.clone(),
                None => {
                    proof {
                        reveal_strlit("description");
                    }
                    return None;
                },
            },
            None => {
                proof {
                    reveal_strlit("description");
                }
                return None;
            },
        };
        proof {
            reveal_strlit("description");
        }
        match parse_descs_from(fields, idx + 1) {
            Some(mut out) => {
                let ghost tail = out@;
                out.insert(0, (fields[idx].0.clone(), d));
                proof {
                    let fs = crate::json::json_view_fields(fields@);
                    assert(out@.drop_first() =~= tail);
                    assert(pairs_view(out@) =~= seq![(out@[0].0@, out@[0].1@)] + pairs_view(tail));
                    assert(fs.skip(idx as int)[0] == fs[idx as int]);
                    assert(fs.skip(idx as int).drop_first() =~= fs.skip(idx as int + 1));
                    assert(descs_of_fields(fs.skip(idx as int)) == Some(pairs_view(out@)));
                }
                Some(out)
            },
            None => {
                proof {
                    let fs = crate::json::json_view_fields(fields@);
                    assert(fs.skip(idx as int).drop_first() =~= fs.skip(idx as int + 1));
                }
                None
            },
        }
    } else {
        let out: Vec<(String, String)> = Vec::new();
        proof {
            assert(crate::json::json_view_fields(fields@).skip(idx as int) =~= Seq::<
                (Seq<char>, JsonV),
            >::empty());
            assert(pairs_view(out@) =~= Seq::<(Seq<char>, Seq<char>)>::empty());
        }
        Some(out)
    }
}

/// Read a name–description map from a value, which must be an object.
fn parse_descs(v: &Json) -> (r: Option<Vec<(String, String)>>)
    ensures
        match r {
            Some(out) => descs_of(v@) == Some(pairs_view(out@)),
            None => descs_of(v@) is None,
        },
{
    match v {
        Json::Obj(fields) => {
            let r = parse_descs_from(fields, 0);
            proof {
                assert(crate::json::json_view_fields(fields@).skip(0)
                    =~= crate::json::json_view_fields(fields@));
            }
            r
        },
        _ => None,
    }
}


/// Tool records from name–description pairs.
fn to_tools(pairs: Vec<(String, String)>) -> (r: Vec<(String, ToolDefinition)>)
    ensures
        r@.len() == pairs@.len(),
        forall|i: int| 0 <= i < pairs@.len() ==> (#[trigger] r@[i]).0@ == pairs@[i].0@
            && r@[i].1.description@ == pairs@[i].1@,
{
    let mut out: Vec<(String, ToolDefinition)> = Vec::new();
    let mut i: usize = 0;
    while i < pairs.len()
        invariant
            i <= pairs@.len(),
            out@.len() == i,
            forall|k: int| 0 <= k < i ==> (#[trigger] out@[k]).0@ == pairs@[k].0@
                && out@[k].1.description@ == pairs@[k].1@,
        decreases pairs@.len() - i,
    {
        out.push((pairs[i].0.clone(), ToolDefinition { description: pairs[i].1.clone() }));
        i = i + 1;
    }
    out
}

/// Resource records from name–description pairs.
fn to_resources(pairs: Vec<(String, String)>) -> (r: Vec<(String, ResourceDefinition)>)
    ensures
        r@.len() == pairs@.len(),
        forall|i: int| 0 <= i < pairs@.len() ==> (#[trigger] r@[i]).0@ == pairs@[i].0@
            && r@[i].1.description@ == pairs@[i].1@,
{
    let mut out: Vec<(String, ResourceDefinition)> = Vec::new();
    let mut i: usize = 0;
    while i < pairs.len()
        invariant
            i <= pairs@.len(),
            out@.len() == i,
            forall|k: int| 0 <= k < i ==> (#[trigger] out@[k]).0@ == pairs@[k].0@
                && out@[k].1.description@ == pairs@[k].1@,
        decreases pairs@.len() - i,
    {
        out.push((pairs[i].0.clone(), ResourceDefinition { description: pairs[i].1.clone() }));
        i = i + 1;
    }
    out
}

/// Prompt records from name–description pairs.
fn to_prompts(pairs: Vec<(String, String)>) -> (r: Vec<(String, PromptDefinition)>)
    ensures
        r@.len() == pairs@.len(),
        forall|i: int| 0 <= i < pairs@.len() ==> (#[trigger] r@[i]).0@ == pairs@[i].0@
            && r@[i].1.description@ == pairs@[i].1@,
{
    let mut out: Vec<(String, PromptDefinition)> = Vec::new();
    let mut i: usize = 0;
    while i < pairs.len()
        invariant
            i <= pairs@.len(),
            out@.len() == i,
            forall|k: int| 0 <= k < i ==> (#[trigger] out@[k]).0@ == pairs@[k].0@
                && out@[k].1.description@ == pairs@[k].1@,
        decreases pairs@.len() - i,
    {
        out.push((pairs[i].0.clone(), PromptDefinition { description: pairs[i].1.clone() }));
        i = i + 1;
    }
    out
}

/// Parameter records from name–description pairs.
fn to_params(pairs: Vec<(String, String)>) -> (r: Vec<(String, ParamDefinition)>)
    ensures
        r@.len() == pairs@.len(),
        forall|i: int| 0 <= i < pairs@.len() ==> (#[trigger] r@[i]).0@ == pairs@[i].0@
            && r@[i].1.description@ == pairs@[i].1@,
{
    let mut out: Vec<(String, ParamDefinition)> = Vec::new();
    let mut i: usize = 0;
    while i < pairs.len()
        invariant
            i <= pairs@.len(),
            out@.len() == i,
            forall|k: int| 0 <= k < i ==> (#[trigger] out@[k]).0@ == pairs@[k].0@
                && out@[k].1.description@ == pairs@[k].1@,
        decreases pairs@.len() - i,
    {
        out.push((pairs[i].0.clone(), ParamDefinition { description: pairs[i].1.clone() }));
        i = i + 1;
    }
    out
}

/// Read one template record: a description and a parameter map.
fn parse_tmpl(v: &Json) -> (r: Option<(String, Vec<(String, ParamDefinition)>)>)
    ensures
        r is Some <==> tmpl_shape_ok(v@),
{
    proof {
        reveal_strlit("description");
        reveal_strlit("params");
    }
    let d = match v.get("description") {
        Some(x) => match x.str_value() {
            Some(s) => s.clone(),
            None => {
                return None;
            },
        },
        None => {
            return None;
        },
    };
    match v.get("params") {
        Some(pv) => match parse_descs(pv) {
            Some(pairs) => Some((d, to_params(pairs))),
            None => None,
        },
        None => None,
    }
}

/// Read a map of resource template records.
fn parse_resource_tmpls(v: &Json) -> (r: Option<Vec<(String, ResourceTemplateDefinition)>>)
    ensures
        r is Some <==> tmpls_ok(v@),
{
    match v {
        Json::Obj(fields) => {
            proof {
                lemma_json_view_fields(fields@);
            }
            let mut out: Vec<(String, ResourceTemplateDefinition)> = Vec::new();
            let mut i: usize = 0;
            while i < fields.len()
                invariant
                    i <= fields@.len(),
                    v@ == JsonV::Obj(crate::json::json_view_fields(fields@)),
                    forall|k: int| 0 <= k < i ==> tmpl_shape_ok(
                        #[trigger] crate::json::json_view_fields(fields@)[k].1,
                    ),
                decreases fields@.len() - i,
            {
                proof {
                    lemma_json_view_fields(fields@);
                }
                match parse_tmpl(&fields[i].1) {
                    Some((d, ps)) => {
                        out.push(
                            (
                                fields[i].0.clone(),
                                ResourceTemplateDefinition { description: d, params: ps },
                            ),
                        );
                    },
                    None => {
                        proof {
                            assert(!tmpl_shape_ok(crate::json::json_view_fields(fields@)[i as int].1));
                        }
                        return None;
                    },
                }
                i = i + 1;
            }
            Some(out)
        },
        _ => None,
    }
}

/// Read a map of prompt template records.
fn parse_prompt_tmpls(v: &Json) -> (r: Option<Vec<(String, PromptTemplateDefinition)>>)
    ensures
        r is Some <==> tmpls_ok(v@),
{
    match v {
        Json::Obj(fields) => {
            proof {
                lemma_json_view_fields(fields@);
            }
            let mut out: Vec<(String, PromptTemplateDefinition)> = Vec::new();
            let mut i: usize = 0;
            while i < fields.len()
                invariant
                    i <= fields@.len(),
                    v@ == JsonV::Obj(crate::json::json_view_fields(fields@)),
                    forall|k: int| 0 <= k < i ==> tmpl_shape_ok(
                        #[trigger] crate::json::json_view_fields(fields@)[k].1,
                    ),
                decreases fields@.len() - i,
            {
                proof {
                    lemma_json_view_fields(fields@);
                }
                match parse_tmpl(&fields[i].1) {
                    Some((d, ps)) => {
                        out.push(
                            (
                                fields[i].0.clone(),
                                PromptTemplateDefinition { description: d, params: ps },
                            ),
                        );
                    },
                    None => {
                        proof {
                            assert(!tmpl_shape_ok(crate::json::json_view_fields(fields@)[i as int].1));
                        }
                        return None;
                    },
                }
                i = i + 1;
            }
            Some(out)
        },
        _ => None,
    }
}

/// Read one server definition.
fn parse_server(v: &Json) -> (r: Option<ServerDefinition>)
    ensures
        r is Some <==> server_shape_ok(v@),
        match r {
            Some(sd) => jv_get(v@, "tools"@) matches Some(t) && descs_of(t) matches Some(ds)
                && sd.tools@.len() == ds.len() && (forall|i: int| 0 <= i < ds.len() ==> (
            #[trigger] sd.tools@[i]).0@ == ds[i].0 && sd.tools@[i].1.description@ == ds[i].1),
            None => true,
        },
{
    proof {
        reveal_strlit("description");
        reveal_strlit("tools");
        reveal_strlit("resources");
        reveal_strlit("resourceTemplates");
        reveal_strlit("prompts");
        reveal_strlit("promptTemplates");
    }
    let d = match v.get("description") {
        Some(x) => match x.str_value() {
            Some(s) => s.clone(),
            None => {
                return None;
            },
        },
        None => {
            return None;
        },
    };
    let tools = match v.get("tools") {
        Some(x) => match parse_descs(x) {
            Some(pairs) => {
                let ghost gp = pairs@;
                proof {
                    lemma_pairs_view(gp);
                }
                to_tools(pairs)
            },
            None => {
                return None;
            },
        },
        None => {
            return None;
        },
    };
    let resources = match v.get("resources") {
        Some(x) => match parse_descs(x) {
            Some(pairs) => to_resources(pairs),
            None => {
                return None;
            },
        },
        None => {
            return None;
        },
    };
    let resource_templates = match v.get("resourceTemplates") {
        Some(x) => match parse_resource_tmpls(x) {
            Some(ts) => ts,
            None => {
                return None;
            },
        },
        None => {
            return None;
        },
    };
    let prompts = match v.get("prompts") {
        Some(x) => match parse_descs(x) {
            Some(pairs) => to_prompts(pairs),
            None => {
                return None;
            },
        },
        None => {
            return None;
        },
    };
    let prompt_templates = match v.get("promptTemplates") {
        Some(x) => match parse_prompt_tmpls(x) {
            Some(ts) => ts,
            None => {
                return None;
            },
        },
        None => {
            return None;
        },
    };
    Some(
        ServerDefinition {
            description: d,
            tools,
            resources,
            resource_templates,
            prompts,
            prompt_templates,
        },
    )
}


/// Read the strings of an array, from element `idx` on.
fn parse_strs_from(items: &Vec<Json>, idx: usize) -> (r: Option<Vec<String>>)
    requires
        idx <= items@.len(),
    ensures
        match r {
            Some(out) => strs_of_seq(crate::json::json_view_seq(items@).skip(idx as int))
                matches Some(ss) && out@.len() == ss.len() && (forall|i: int|
                0 <= i < ss.len() ==> (#[trigger] out@[i])@ == ss[i]),
            None => strs_of_seq(crate::json::json_view_seq(items@).skip(idx as int)) is None,
        },
    decreases items@.len() - idx,
{
    proof {
        lemma_json_view_seq(items@);
    }
    if idx < items.len() {
        let s = match items[idx].str_value() {
            Some(s) => s.clone(),
            None => {
                proof {
                    let vs = crate::json::json_view_seq(items@);
                    assert(vs.skip(idx as int)[0] == vs[idx as int]);
                }
                return None;
            },
        };
        match parse_strs_from(items, idx + 1) {
            Some(mut out) => {
                let ghost tail = out@;
                out.insert(0, s);
                proof {
                    let vs = crate::json::json_view_seq(items@);
                    assert(vs.skip(idx as int)[0] == vs[idx as int]);
                    assert(vs.skip(idx as int).drop_first() =~= vs.skip(idx as int + 1));
                    assert(out@.drop_first() =~= tail);
                }
                Some(out)
            },
            None => {
                proof {
                    let vs = crate::json::json_view_seq(items@);
                    assert(vs.skip(idx as int)[0] == vs[idx as int]);
                    assert(vs.skip(idx as int).drop_first() =~= vs.skip(idx as int + 1));
                }
                None
            },
        }
    } else {
        let out: Vec<String> = Vec::new();
        proof {
            assert(crate::json::json_view_seq(items@).skip(idx as int) =~= Seq::<JsonV>::empty());
        }
        Some(out)
    }
}

/// Read one scenario record.
fn parse_scenario(v: &Json) -> (r: Option<ScenarioDefinition>)
    ensures
        match r {
            Some(s) => scen_of_jv(v@) matches Some(sv) && scen_matches(s, sv),
            None => scen_of_jv(v@) is None,
        },
{
    proof {
        reveal_strlit("id");
        reveal_strlit("description");
        reveal_strlit("client_ids");
        reveal_strlit("server_name");
        reveal_strlit("http_only");
    }
    let n: i64 = match v.get("id") {
        Some(x) => match x.int_value() {
            Some(n) => n,
            None => {
                return None;
            },
        },
        None => {
            return None;
        },
    };
    if !(1 <= n && n <= u32::MAX as i64) {
        return None;
    }
    let d = match v.get("description") {
        Some(x) => match x.str_value() {
            Some(s) => s.clone(),
            None => {
                return None;
            },
        },
        None => {
            return None;
        },
    };
    let cids: Vec<String> = match v.get("client_ids") {
        Some(x) => match x {
            Json::Arr(items) => match parse_strs_from(items, 0) {
                Some(out) => {
                    proof {
                        assert(crate::json::json_view_seq(items@).skip(0)
                            =~= crate::json::json_view_seq(items@));
                    }
                    out
                },
                None => {
                    return None;
                },
            },
            _ => {
                return None;
            },
        },
        None => {
            return None;
        },
    };
    if cids.len() == 0 {
        return None;
    }
    let sn = match v.get("server_name") {
        Some(x) => match x.str_value() {
            Some(s) => s.clone(),
            None => {
                return None;
            },
        },
        None => {
            return None;
        },
    };
    let ho: bool = match v.get("http_only") {
        Some(x) => match x.bool_value() {
            Some(b) => b,
            None => {
                return None;
            },
        },
        None => false,
    };
    Some(
        ScenarioDefinition {
            id: n as u32,
            description: d,
            client_ids: cids,
            server_name: sn,
            http_only: ho,
        },
    )
}

/// Read the scenario records of an array, from element `idx` on.
fn parse_scens_from(items: &Vec<Json>, idx: usize) -> (r: Option<Vec<ScenarioDefinition>>)
    requires
        idx <= items@.len(),
    ensures
        match r {
            Some(out) => scens_of_seq(crate::json::json_view_seq(items@).skip(idx as int))
                matches Some(svs) && out@.len() == svs.len() && (forall|i: int|
                0 <= i < svs.len() ==> scen_matches(#[trigger] out@[i], svs[i])),
            None => scens_of_seq(crate::json::json_view_seq(items@).skip(idx as int)) is None,
        },
    decreases items@.len() - idx,
{
    proof {
        lemma_json_view_seq(items@);
    }
    if idx < items.len() {
        match parse_scenario(&items[idx]) {
            Some(s) => match parse_scens_from(items, idx + 1) {
                Some(mut out) => {
                    let ghost tail = out@;
                    out.insert(0, s);
                    proof {
                        let vs = crate::json::json_view_seq(items@);
                        assert(vs.skip(idx as int)[0] == vs[idx as int]);
                        assert(vs.skip(idx as int).drop_first() =~= vs.skip(idx as int + 1));
                        assert(out@.drop_first() =~= tail);
                    }
                    Some(out)
                },
                None => {
                    proof {
                        let vs = crate::json::json_view_seq(items@);
                        assert(vs.skip(idx as int)[0] == vs[idx as int]);
                        assert(vs.skip(idx as int).drop_first() =~= vs.skip(idx as int + 1));
                    }
                    None
                },
            },
            None => {
                proof {
                    let vs = crate::json::json_view_seq(items@);
                    assert(vs.skip(idx as int)[0] == vs[idx as int]);
                }
                None
            },
        }
    } else {
        let out: Vec<ScenarioDefinition> = Vec::new();
        proof {
            assert(crate::json::json_view_seq(items@).skip(idx as int) =~= Seq::<JsonV>::empty());
        }
        Some(out)
    }
}

/// Whether the server map holds an entry of this name.
pub fn server_named(servers: &Vec<(String, ServerDefinition)>, name: &str) -> (b: bool)
    ensures
        b == has_server_name(servers@, name@),
{
    let mut k: usize = 0;
    while k < servers.len()
        invariant
            k <= servers@.len(),
            forall|j: int| 0 <= j < k ==> (#[trigger] servers@[j]).0@ != name@,
        decreases servers@.len() - k,
    {
        if str_eq(servers[k].0.as_str(), name) {
            return true;
        }
        k = k + 1;
    }
    false
}

/// The catalog's two parts, where the descriptor has a catalog's shape:
/// a server map whose every entry has a server's shape, and a scenario list
/// whose every entry has a scenario's shape.
pub open spec fn catalog_shape(v: JsonV) -> Option<(Seq<(Seq<char>, JsonV)>, Seq<ScenV>)> {
    match (jv_get(v, "servers"@), jv_get(v, "scenarios"@)) {
        (Some(JsonV::Obj(fs)), Some(JsonV::Arr(items))) => match scens_of_seq(items) {
            Some(svs) => if forall|k: int| 0 <= k < fs.len() ==> server_shape_ok(
                (#[trigger] fs[k]).1,
            ) {
                Some((fs, svs))
            } else {
                None
            },
            None => None,
        },
        _ => None,
    }
}

/// Whether a field sequence holds a key of this name.
pub open spec fn has_server_key(fs: Seq<(Seq<char>, JsonV)>, name: Seq<char>) -> bool {
    exists|k: int| 0 <= k < fs.len() && (#[trigger] fs[k]).0 == name
}

/// Whether every scenario's server name is a key of the server map.
pub open spec fn catalog_resolves(fs: Seq<(Seq<char>, JsonV)>, svs: Seq<ScenV>) -> bool {
    forall|i: int| 0 <= i < svs.len() ==> has_server_key(fs, (#[trigger] svs[i]).server_name)
}

/// Every scenario a shape-valid list denotes has a positive id within range
/// and at least one client identifier.
proof fn lemma_scens_ok(items: Seq<JsonV>)
    requires
        scens_of_seq(items) is Some,
    ensures
        forall|i: int|
            0 <= i < scens_of_seq(items).unwrap().len() ==> {
                let s = #[trigger] scens_of_seq(items).unwrap()[i];
                1 <= s.id <= u32::MAX && s.client_ids.len() > 0
            },
    decreases items.len(),
{
    if items.len() > 0 {
        lemma_scens_ok(items.drop_first());
    }
}

/// Build and validate the catalog from its structured descriptor.  The
/// loader fails exactly on a descriptor without a catalog's shape or with a
/// scenario naming no server of the map; a loaded catalog satisfies the
/// catalog invariant, lists the servers under the descriptor's names in its
/// order, and carries the scenario list exactly as denoted.
pub fn catalog_from_json(j: &Json) -> (r: Result<Scenarios, String>)
    ensures
        match r {
            Ok(c) => catalog_shape(j@) matches Some((fs, svs)) && catalog_resolves(fs, svs)
                && catalog_wf(c) && c.servers@.len() == fs.len() && (forall|k: int|
                0 <= k < fs.len() ==> (#[trigger] c.servers@[k]).0@ == fs[k].0)
                && c.scenarios@.len() == svs.len() && (forall|i: int|
                0 <= i < svs.len() ==> scen_matches(#[trigger] c.scenarios@[i], svs[i])),
            Err(_) => catalog_shape(j@) is None || (catalog_shape(j@) matches Some((fs, svs))
                && !catalog_resolves(fs, svs)),
        },
{
    proof {
        reveal_strlit("servers");
        reveal_strlit("scenarios");
    }
    let sfields: &Vec<(String, Json)> = match j.get("servers") {
        Some(x) => match x {
            Json::Obj(f) => f,
            _ => {
                return Err("servers is not a map".to_owned());
            },
        },
        None => {
            return Err("servers map missing".to_owned());
        },
    };
    let ghost gfs = crate::json::json_view_fields(sfields@);
    proof {
        lemma_json_view_fields(sfields@);
    }
    let mut servers: Vec<(String, ServerDefinition)> = Vec::new();
    let mut k: usize = 0;
    while k < sfields.len()
        invariant
            k <= sfields@.len(),
            gfs == crate::json::json_view_fields(sfields@),
            jv_get(j@, "servers"@) == Some(JsonV::Obj(gfs)),
            gfs.len() == sfields@.len(),
            forall|i: int| 0 <= i < gfs.len() ==> #[trigger] gfs[i] == (
                sfields@[i].0@,
                crate::json::json_view(sfields@[i].1),
            ),
            servers@.len() == k,
            forall|i: int| 0 <= i < k ==> (#[trigger] servers@[i]).0@ == gfs[i].0,
            forall|i: int| 0 <= i < k ==> server_shape_ok((#[trigger] gfs[i]).1),
        decreases sfields@.len() - k,
    {
        match parse_server(&sfields[k].1) {
            Some(sd) => {
                servers.push((sfields[k].0.clone(), sd));
            },
            None => {
                proof {
                    assert(!server_shape_ok(gfs[k as int].1));
                }
                return Err("invalid server definition".to_owned());
            },
        }
        k = k + 1;
    }
    let items: &Vec<Json> = match j.get("scenarios") {
        Some(x) => match x {
            Json::Arr(f) => f,
            _ => {
                return Err("scenarios is not a list".to_owned());
            },
        },
        None => {
            return Err("scenarios list missing".to_owned());
        },
    };
    let scens: Vec<ScenarioDefinition> = match parse_scens_from(items, 0) {
        Some(out) => {
            proof {
                assert(crate::json::json_view_seq(items@).skip(0) =~= crate::json::json_view_seq(
                    items@,
                ));
            }
            out
        },
        None => {
            proof {
                assert(crate::json::json_view_seq(items@).skip(0) =~= crate::json::json_view_seq(
                    items@,
                ));
            }
            return Err("invalid scenario definition".to_owned());
        },
    };
    let ghost gsv = scens_of_seq(crate::json::json_view_seq(items@)).unwrap();
    let mut i: usize = 0;
    while i < scens.len()
        invariant
            i <= scens@.len(),
            jv_get(j@, "servers"@) == Some(JsonV::Obj(gfs)),
            jv_get(j@, "scenarios"@) == Some(JsonV::Arr(crate::json::json_view_seq(items@))),
            scens_of_seq(crate::json::json_view_seq(items@)) == Some(gsv),
            forall|n: int| 0 <= n < gfs.len() ==> server_shape_ok((#[trigger] gfs[n]).1),
            scens@.len() == gsv.len(),
            forall|n: int| 0 <= n < gsv.len() ==> scen_matches(#[trigger] scens@[n], gsv[n]),
            servers@.len() == gfs.len(),
            forall|n: int| 0 <= n < gfs.len() ==> (#[trigger] servers@[n]).0@ == gfs[n].0,
            forall|n: int| 0 <= n < i ==> has_server_key(gfs, (#[trigger] gsv[n]).server_name),
        decreases scens@.len() - i,
    {
        if !server_named(&servers, scens[i].server_name.as_str()) {
            proof {
                assert(scens@[i as int].server_name@ == gsv[i as int].server_name);
                assert forall|m: int| 0 <= m < gfs.len() implies (#[trigger] gfs[m]).0
                    != gsv[i as int].server_name by {
                    assert(servers@[m].0@ == gfs[m].0);
                }
                assert(!has_server_key(gfs, gsv[i as int].server_name)) by {
                    if has_server_key(gfs, gsv[i as int].server_name) {
                        let m = choose|m: int| 0 <= m < gfs.len() && (#[trigger] gfs[m]).0
                            == gsv[i as int].server_name;
                        assert(gfs[m].0 != gsv[i as int].server_name);
                    }
                }
                assert(!catalog_resolves(gfs, gsv)) by {
                    if catalog_resolves(gfs, gsv) {
                        assert(has_server_key(gfs, gsv[i as int].server_name));
                    }
                }
            }
            return Err("scenario names an unknown server".to_owned());
        }
        proof {
            let m = choose|m: int| 0 <= m < servers@.len()
                && servers@[m].0@ == scens@[i as int].server_name@;
            assert(gfs[m].0 == gsv[i as int].server_name);
            assert(has_server_key(gfs, gsv[i as int].server_name));
        }
        i = i + 1;
    }
    proof {
        assert(catalog_resolves(gfs, gsv));
    }
    let c = Scenarios { servers, scenarios: scens };
    proof {
        assert(catalog_shape(j@) == Some((gfs, gsv)));
        lemma_scens_ok(crate::json::json_view_seq(items@));
        assert forall|n: int| 0 <= n < c.scenarios@.len() implies {
            let s = #[trigger] c.scenarios@[n];
            &&& s.id >= 1
            &&& s.client_ids@.len() > 0
            &&& has_server_name(c.servers@, s.server_name@)
        } by {
            assert(scen_matches(c.scenarios@[n], gsv[n]));
            assert(has_server_key(gfs, gsv[n].server_name));
            let m = choose|m: int| 0 <= m < gfs.len() && (#[trigger] gfs[m]).0 == gsv[
                n
            ].server_name;
            assert(c.servers@[m].0@ == gsv[n].server_name);
        }
    }
    Ok(c)
}

/// The first scenario bearing this id, if any does.
pub fn find_scenario<'a>(c: &'a Scenarios, id: u32) -> (r: Option<&'a ScenarioDefinition>)
    ensures
        match r {
            Some(s) => s.id == id && exists|i: int|
                0 <= i < c.scenarios@.len() && #[trigger] c.scenarios@[i] == *s && (forall|j: int|
                0 <= j < i ==> (#[trigger] c.scenarios@[j]).id != id),
            None => forall|i: int| 0 <= i < c.scenarios@.len() ==> (#[trigger] c.scenarios@[i]).id
                != id,
        },
{
    let mut i: usize = 0;
    while i < c.scenarios.len()
        invariant
            i <= c.scenarios@.len(),
            forall|k: int| 0 <= k < i ==> (#[trigger] c.scenarios@[k]).id != id,
        decreases c.scenarios@.len() - i,
    {
        if c.scenarios[i].id == id {
            return Some(&c.scenarios[i]);
        }
        i = i + 1;
    }
    None
}

/// Whether a scenario names this client identifier.
pub fn scenario_has_client(s: &ScenarioDefinition, cid: &str) -> (b: bool)
    ensures
        b == exists|i: int| 0 <= i < s.client_ids@.len() && (#[trigger] s.client_ids@[i])@ == cid@,
{
    let mut i: usize = 0;
    while i < s.client_ids.len()
        invariant
            i <= s.client_ids@.len(),
            forall|k: int| 0 <= k < i ==> (#[trigger] s.client_ids@[k])@ != cid@,
        decreases s.client_ids@.len() - i,
    {
        if str_eq(s.client_ids[i].as_str(), cid) {
            return true;
        }
        i = i + 1;
    }
    false
}

/// Every scenario of a well-formed catalog resolves: its id is positive, it
/// names a client, and its server name is a key of the server map.
pub proof fn lemma_catalog_scenarios_resolve(c: Scenarios, i: int)
    requires
        catalog_wf(c),
        0 <= i < c.scenarios@.len(),
    ensures
        c.scenarios@[i].id >= 1,
        c.scenarios@[i].client_ids@.len() > 0,
        has_server_name(c.servers@, c.scenarios@[i].server_name@),
{
}

} // verus!
