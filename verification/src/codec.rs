//! The request and response shapes of the wire protocol.
//!
//! One request object goes out per connection, one response object comes
//! back, each as a single line of JSON. `encode_request` produces exactly
//! the canonical rendering of the request object; `decode_response`
//! inverts a canonically rendered response object exactly (its second
//! `ensures` clause), and otherwise reads any parseable object
//! defensively.

use vstd::prelude::*;
use crate::json::{
    JsonMember, JsonVal, JsonValue, members_view, render_val, spec_get, spec_lookup, wf_val,
};
use crate::jsonparse::{is_line_ws, parse_value, render_at};
use crate::strutil::chars_of;
use vstd::string::StrSliceExecFns;

verus! {

/// One request: a remote method name, its parameters, and the optional
/// correlation id and auth token.
pub struct SocketRequest {
    pub id: Option<String>,
    pub method: String,
    pub params: JsonValue,
    pub token: Option<String>,
}

/// One response: a success flag, an optional payload, an optional error
/// text.
#[derive(Debug)]
pub struct SocketResponse {
    pub success: bool,
    pub data: Option<JsonValue>,
    pub error: Option<String>,
}

/// A request is well-formed when its method is named, its parameters
/// form an object, and every number in them is well-formed.
pub open spec fn wf_request(req: SocketRequest) -> bool {
    &&& req.method@.len() > 0
    &&& req.params@ is Obj
    &&& wf_val(req.params@)
}

/// A response is well-formed when its payload is well-formed and not the
/// bare JSON null: a null payload reads back as an absent one, so only
/// an absent one writes out as null.
pub open spec fn wf_response(resp: SocketResponse) -> bool {
    match resp.data {
        Some(d) => wf_val(d@) && !(d@ is Null),
        None => true,
    }
}

/// The JSON object a request travels as. Absent id and token fields are
/// left out entirely.
pub open spec fn request_jval(req: SocketRequest) -> JsonVal {
    JsonVal::Obj(
        (match req.id {
            Some(id) => seq![("id"@, JsonVal::Str(id@))],
            None => Seq::empty(),
        }) + seq![("method"@, JsonVal::Str(req.method@)), ("params"@, req.params@)] + (
        match req.token {
            Some(t) => seq![("token"@, JsonVal::Str(t@))],
            None => Seq::empty(),
        }),
    )
}

/// The JSON object a response travels as. Absent payload and error
/// fields are left out entirely.
pub open spec fn response_jval(resp: SocketResponse) -> JsonVal {
    JsonVal::Obj(
        seq![("success"@, JsonVal::Bool(resp.success))] + (match resp.data {
            Some(d) => seq![("data"@, d@)],
            None => Seq::empty(),
        }) + (match resp.error {
            Some(e) => seq![("error"@, JsonVal::Str(e@))],
            None => Seq::empty(),
        }),
    )
}

/// Two responses carry the same success flag, payload and error text.
pub open spec fn resp_models(a: SocketResponse, b: SocketResponse) -> bool {
    &&& a.success == b.success
    &&& match (a.data, b.data) {
        (Some(x), Some(y)) => x@ == y@,
        (None, None) => true,
        _ => false,
    }
    &&& match (a.error, b.error) {
        (Some(x), Some(y)) => x@ == y@,
        (None, None) => true,
        _ => false,
    }
}

/// The line of text a request goes out as: the canonical rendering of
/// its JSON object, without the line terminator.
pub fn encode_request(req: &SocketRequest) -> (r: String)
    ensures
        r@ == render_val(request_jval(*req)),
{
    let mut members: Vec<JsonMember> = Vec::new();
    match &req.id {
        Some(id) => {
            members.push(JsonMember { name: String::from_str("id"), value: JsonValue::Str(id.clone()) });
        },
        None => {},
    }
    members.push(
        JsonMember { name: String::from_str("method"), value: JsonValue::Str(req.method.clone()) },
    );
    members.push(JsonMember { name: String::from_str("params"), value: req.params.deep_copy() });
    match &req.token {
        Some(t) => {
            members.push(
                JsonMember { name: String::from_str("token"), value: JsonValue::Str(t.clone()) },
            );
        },
        None => {},
    }
    let obj = JsonValue::Obj(members);
    proof {
        assert(members_view(members@) =~= request_jval(*req)->Obj_0);
        assert(obj@ == request_jval(*req));
    }
    obj.render()
}

/// A looked-up member of a well-formed object is well-formed.
proof fn lemma_lookup_wf(members: Seq<(Seq<char>, JsonVal)>, key: Seq<char>)
    requires
        wf_val(JsonVal::Obj(members)),
        spec_lookup(members, key) is Some,
    ensures
        wf_val(spec_lookup(members, key)->0),
    decreases members.len(),
{
    if members.len() > 0 {
        crate::jsonparse::lemma_wf_obj_index(members, 0);
        if members[0].0 == key {
        } else {
            assert(wf_val(JsonVal::Obj(members.drop_first()))) by {
                assert(forall|k: int|
                    0 <= k < members.drop_first().len() ==> #[trigger] members.drop_first()[k]
                        == members[k + 1]);
                assert forall|k: int| 0 <= k < members.drop_first().len() implies wf_val(
                    #[trigger] members.drop_first()[k].1,
                ) by {
                    crate::jsonparse::lemma_wf_obj_index(members, k + 1);
                }
            }
            lemma_lookup_wf(members.drop_first(), key);
        }
    }
}

/// Read one response line. `None` when the line does not hold exactly
/// one JSON object of the response shape.
///
/// The second `ensures` clause is the codec's round trip: a line that is
/// the canonical rendering of a well-formed response decodes to exactly
/// that response, field for field.
pub fn decode_response(line: &str) -> (r: Option<SocketResponse>)
    ensures
        r matches Some(w) ==> wf_response(w),
        forall|resp: SocketResponse| #![trigger response_jval(resp)]
            wf_response(resp) && line@ == render_val(response_jval(resp)) ==> (r matches Some(w)
            && resp_models(w, resp)),
{
    let chars = chars_of(line);
    let mut end: usize = chars.len();
    while end > 0 && is_ws_exec(chars[end - 1])
        invariant
            end <= chars@.len(),
            chars@ == line@,
            forall|k: int| end <= k < chars@.len() ==> is_line_ws(chars@[k]),
        decreases end,
    {
        end = end - 1;
    }
    let mut start: usize = 0;
    while start < end && is_ws_exec(chars[start])
        invariant
            start <= end <= chars@.len(),
            chars@ == line@,
            forall|k: int| 0 <= k < start ==> is_line_ws(chars@[k]),
        decreases end - start,
    {
        start = start + 1;
    }
    let parsed = parse_value(&chars, start);
    let r: Option<SocketResponse> = match parsed {
        Some((v, j)) => {
            if j != end {
                None
            } else {
                decode_response_object(&v)
            }
        },
        None => None,
    };
    proof {
        assert forall|resp: SocketResponse|
            wf_response(resp) && line@ == render_val(#[trigger] response_jval(resp)) implies (r
            matches Some(w) && resp_models(w, resp)) by {
            let rv = render_val(response_jval(resp));
            lemma_response_jval_wf(resp);
            crate::jsonparse::lemma_render_first(response_jval(resp));
            assert(rv[0] == '{');
            assert(rv[rv.len() - 1] == '}') by {
                let rm = crate::json::render_members(response_jval(resp)->Obj_0, 0);
                assert(rv == seq!['{'] + rm + seq!['}']);
            }
            assert(!is_line_ws('{'));
            assert(!is_line_ws('}'));
            assert(end == chars@.len());
            assert(start == 0);
            assert(render_at(chars@, 0, response_jval(resp))) by {
                assert(chars@.subrange(0, rv.len() as int) =~= rv);
            }
            assert(parsed matches Some(p) && p.0@ == response_jval(resp) && p.1 == rv.len());
        }
    }
    r
}

fn is_ws_exec(c: char) -> (r: bool)
    ensures
        r == is_line_ws(c),
{
    c == ' ' || c == '\t' || c == '\r' || c == '\n'
}

/// The rendering object of a well-formed response is well-formed.
proof fn lemma_response_jval_wf(resp: SocketResponse)
    requires
        wf_response(resp),
    ensures
        wf_val(response_jval(resp)),
{
    let ms = response_jval(resp)->Obj_0;
    assert forall|k: int| 0 <= k < ms.len() implies wf_val(#[trigger] ms[k].1) by {}
}

/// Looking the three known keys up in the rendering object of a response
/// gives back its fields.
proof fn lemma_decode_fields(resp: SocketResponse)
    ensures
        spec_get(response_jval(resp), "success"@) == Some(JsonVal::Bool(resp.success)),
        spec_get(response_jval(resp), "data"@) == match resp.data {
            Some(d) => Some(d@),
            None => None::<JsonVal>,
        },
        spec_get(response_jval(resp), "error"@) == match resp.error {
            Some(e) => Some(JsonVal::Str(e@)),
            None => None::<JsonVal>,
        },
{
    reveal_strlit("success");
    reveal_strlit("data");
    reveal_strlit("error");
    reveal_with_fuel(spec_lookup, 5);
    let ms = response_jval(resp)->Obj_0;
    assert(ms[0] == ("success"@, JsonVal::Bool(resp.success)));
    assert("success"@.len() == 7);
    assert("data"@.len() == 4);
    assert("error"@.len() == 5);
    match resp.data {
        Some(d) => {
            assert(ms[1] == ("data"@, d@));
            match resp.error {
                Some(e) => {
                    assert(ms[2] == ("error"@, JsonVal::Str(e@)));
                    assert(ms.drop_first().drop_first().drop_first() =~= Seq::empty());
                },
                None => {
                    assert(ms.drop_first().drop_first() =~= Seq::empty());
                },
            }
        },
        None => {
            match resp.error {
                Some(e) => {
                    assert(ms[1] == ("error"@, JsonVal::Str(e@)));
                    assert(ms.drop_first().drop_first() =~= Seq::empty());
                },
                None => {
                    assert(ms.drop_first() =~= Seq::empty());
                },
            }
        },
    }
    assert(ms.len() >= 1);
    assert(forall|k: int|
        0 <= k < ms.drop_first().len() ==> #[trigger] ms.drop_first()[k] == ms[k + 1]);
    if ms.len() >= 2 {
        assert forall|k: int| 0 <= k < ms.drop_first().drop_first().len() implies #[trigger] ms
            .drop_first().drop_first()[k] == ms[k + 2] by {
            assert(ms.drop_first().drop_first()[k] == ms.drop_first()[k + 1]);
        }
    }
}

/// Read the fields of a parsed response object; `None` when a required
/// field is missing or of the wrong shape.
fn decode_response_object(v: &JsonValue) -> (r: Option<SocketResponse>)
    requires
        wf_val(v@),
    ensures
        r matches Some(w) ==> wf_response(w),
        forall|resp: SocketResponse| #![trigger response_jval(resp)]
            wf_response(resp) && v@ == response_jval(resp) ==> (r matches Some(w) && resp_models(
            w,
            resp,
        )),
{
    let success = match v.get("success") {
        Some(sv) => match sv.as_bool() {
            Some(b) => b,
            None => {
                proof {
                    assert forall|resp: SocketResponse|
                        v@ != #[trigger] response_jval(resp) by {
                        lemma_decode_fields(resp);
                    }
                }
                return None;
            },
        },
        None => {
            proof {
                assert forall|resp: SocketResponse| v@ != #[trigger] response_jval(resp) by {
                    lemma_decode_fields(resp);
                }
            }
            return None;
        },
    };
    let data: Option<JsonValue> = match v.get("data") {
        Some(dv) => match dv {
            JsonValue::Null => None,
            _ => {
                proof {
                    assert(v@ is Obj);
                    lemma_lookup_wf(v@->Obj_0, "data"@);
                }
                Some(dv.deep_copy())
            },
        },
        None => None,
    };
    let error: Option<String> = match v.get("error") {
        Some(ev) => match ev {
            JsonValue::Null => None,
            JsonValue::Str(s) => Some(s.clone()),
            _ => {
                proof {
                    assert forall|resp: SocketResponse|
                        wf_response(resp) implies v@ != #[trigger] response_jval(resp) by {
                        lemma_decode_fields(resp);
                    }
                }
                return None;
            },
        },
        None => None,
    };
    let w = SocketResponse { success, data, error };
    proof {
        assert forall|resp: SocketResponse|
            wf_response(resp) && v@ == #[trigger] response_jval(resp) implies resp_models(
            w,
            resp,
        ) by {
            lemma_decode_fields(resp);
        }
    }
    Some(w)
}

} // verus!
