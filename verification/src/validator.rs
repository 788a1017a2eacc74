use vstd::prelude::*;
use crate::errors::TestError;
use crate::json::{
    json_at, json_diff, json_equiv, json_of, JsonSpec, JsonValue, PathStep, StepSpec,
};
use crate::request::{ReqSpec, ResultType, TestRequest};
use crate::text::{dec_str, str_eq, usize_to_string};

verus! {

/// A JSON document written back out: members and elements in held order,
/// numbers by their canonical text, strings quoted but not escaped. This
/// is the report's notation, not an encoder.
pub open spec fn jtext(v: JsonSpec) -> Seq<char>
    decreases v,
{
    match v {
        JsonSpec::Null => "null"@,
        JsonSpec::Bool(b) => if b {
            "true"@
        } else {
            "false"@
        },
        JsonSpec::Num(s) => s,
        JsonSpec::Str(s) => seq!['"'] + s + seq!['"'],
        JsonSpec::Arr(a) => seq!['['] + jtext_items(a) + seq![']'],
        JsonSpec::Obj(m) => seq!['{'] + jtext_members(m) + seq!['}'],
    }
}

/// Array elements written out with commas between them.
pub open spec fn jtext_items(a: Seq<JsonSpec>) -> Seq<char>
    decreases a,
{
    if a.len() == 0 {
        Seq::empty()
    } else if a.len() == 1 {
        jtext(a[0])
    } else {
        jtext(a[0]) + seq![','] + jtext_items(a.drop_first())
    }
}

/// Object members written out as quoted key, colon, value, with commas
/// between them.
pub open spec fn jtext_members(m: Seq<(Seq<char>, JsonSpec)>) -> Seq<char>
    decreases m,
{
    if m.len() == 0 {
        Seq::empty()
    } else {
        let head = seq!['"'] + m[0].0 + seq!['"'] + seq![':'] + jtext(m[0].1);
        if m.len() == 1 {
            head
        } else {
            head + seq![','] + jtext_members(m.drop_first())
        }
    }
}

/// A path into a document, written `$`, then `.key` and `[index]` steps.
pub open spec fn steps_text(p: Seq<StepSpec>) -> Seq<char>
    decreases p.len(),
{
    if p.len() == 0 {
        Seq::empty()
    } else {
        (match p[0] {
            StepSpec::Key(k) => seq!['.'] + k,
            StepSpec::Index(i) => seq!['['] + (if i >= 0 {
                dec_str(i as nat)
            } else {
                Seq::empty()
            }) + seq![']'],
        }) + steps_text(p.drop_first())
    }
}

/// The report's wording for a body mismatch: the path, what the fixture
/// holds there, and what the response holds there.
pub open spec fn mismatch_msg(p: Seq<StepSpec>, actual: JsonSpec, expected: JsonSpec) -> Seq<
    char,
> {
    "json mismatch at path $"@ + steps_text(p) + ": expected "@ + jtext(expected) + ", got "@
        + jtext(actual)
}

/// The report's wording for a status mismatch, citing both values.
pub open spec fn status_msg(expected: Seq<char>, got: Seq<char>) -> Seq<char> {
    "http status does not match: expected "@ + expected + ", got "@ + got
}

/// A response passes a test case when its body is structurally equivalent
/// to the fixture document and, where the case declares a status, that
/// status reads exactly as the response's status code in decimal.
pub open spec fn verdict_ok(t: ReqSpec, actual: JsonSpec, status: u16, exp: JsonSpec) -> bool {
    json_equiv(actual, exp) && match t.status {
        Some(s) => s == dec_str(status as nat),
        None => true,
    }
}

/// Write a document out in the report's notation.
pub fn to_text(v: &JsonValue) -> (r: String)
    ensures
        r@ == jtext(v@),
    decreases v,
{
    match v {
        JsonValue::Null => String::from_str("null"),
        JsonValue::Bool(b) => {
            if *b {
                String::from_str("true")
            } else {
                String::from_str("false")
            }
        },
        JsonValue::Num(s) => s.clone(),
        JsonValue::Str(s) => {
            proof {
                reveal_strlit("\"");
            }
            let mut out = String::from_str("\"");
            out.append(s.as_str());
            out.append("\"");
            proof {
                assert(out@ =~= seq!['"'] + s@ + seq!['"']);
            }
            out
        },
        JsonValue::Arr(a) => {
            proof {
                reveal_strlit("[");
                reveal_strlit("]");
            }
            let mut out = String::from_str("[");
            let items = items_text(a, 0);
            out.append(items.as_str());
            out.append("]");
            proof {
                assert(crate::json::arr_model(a@).skip(0) =~= crate::json::arr_model(a@));
                assert(out@ =~= seq!['['] + jtext_items(crate::json::arr_model(a@)) + seq![']']);
            }
            out
        },
        JsonValue::Obj(m) => {
            proof {
                reveal_strlit("{");
                reveal_strlit("}");
            }
            let mut out = String::from_str("{");
            let items = members_text(m, 0);
            out.append(items.as_str());
            out.append("}");
            proof {
                assert(crate::json::obj_model(m@).skip(0) =~= crate::json::obj_model(m@));
                assert(out@ =~= seq!['{'] + jtext_members(crate::json::obj_model(m@)) + seq![
                    '}',
                ]);
            }
            out
        },
    }
}

fn items_text(a: &Vec<JsonValue>, i: usize) -> (r: String)
    requires
        i <= a.len(),
    ensures
        r@ == jtext_items(crate::json::arr_model(a@).skip(i as int)),
    decreases a, a.len() - i,
{
    let ghost s = crate::json::arr_model(a@).skip(i as int);
    if i == a.len() {
        proof {
            assert(s =~= Seq::<JsonSpec>::empty());
        }
        String::new()
    } else {
        proof {
            assert(s[0] == crate::json::arr_model(a@)[i as int]);
        }
        let mut head = to_text(&a[i]);
        if i + 1 == a.len() {
            proof {
                assert(s.len() == 1);
            }
            head
        } else {
            proof {
                reveal_strlit(",");
            }
            head.append(",");
            let rest = items_text(a, i + 1);
            head.append(rest.as_str());
            proof {
                assert(s.drop_first() =~= crate::json::arr_model(a@).skip(i as int + 1));
                assert(head@ =~= jtext(s[0]) + seq![','] + jtext_items(s.drop_first()));
            }
            head
        }
    }
}

fn members_text(m: &Vec<(String, JsonValue)>, i: usize) -> (r: String)
    requires
        i <= m.len(),
    ensures
        r@ == jtext_members(crate::json::obj_model(m@).skip(i as int)),
    decreases m, m.len() - i,
{
    let ghost s = crate::json::obj_model(m@).skip(i as int);
    if i == m.len() {
        proof {
            assert(s =~= Seq::<(Seq<char>, JsonSpec)>::empty());
        }
        String::new()
    } else {
        proof {
            assert(s[0] == crate::json::obj_model(m@)[i as int]);
            reveal_strlit("\"");
            reveal_strlit(":");
        }
        let mut head = String::from_str("\"");
        head.append(m[i].0.as_str());
        head.append("\"");
        head.append(":");
        let val = to_text(&m[i].1);
        head.append(val.as_str());
        proof {
            assert(head@ =~= seq!['"'] + s[0].0 + seq!['"'] + seq![':'] + jtext(s[0].1));
        }
        if i + 1 == m.len() {
            proof {
                assert(s.len() == 1);
            }
            head
        } else {
            proof {
                reveal_strlit(",");
            }
            head.append(",");
            let rest = members_text(m, i + 1);
            head.append(rest.as_str());
            proof {
                assert(s.drop_first() =~= crate::json::obj_model(m@).skip(i as int + 1));
                assert(head@ =~= (seq!['"'] + s[0].0 + seq!['"'] + seq![':'] + jtext(s[0].1))
                    + seq![','] + jtext_members(s.drop_first()));
            }
            head
        }
    }
}

fn steps_text_exec(p: &Vec<PathStep>, i: usize) -> (r: String)
    requires
        i <= p.len(),
    ensures
        r@ == steps_text(p.deep_view().skip(i as int)),
    decreases p.len() - i,
{
    let ghost s = p.deep_view().skip(i as int);
    if i == p.len() {
        proof {
            assert(s =~= Seq::<StepSpec>::empty());
        }
        String::new()
    } else {
        proof {
            assert(s[0] == p.deep_view()[i as int]);
            assert(s.drop_first() =~= p.deep_view().skip(i as int + 1));
        }
        let mut head: String = match &p[i] {
            PathStep::Key(k) => {
                proof {
                    reveal_strlit(".");
                }
                let mut h = String::from_str(".");
                h.append(k.as_str());
                proof {
                    assert(h@ =~= seq!['.'] + k@);
                }
                h
            },
            PathStep::Index(ix) => {
                proof {
                    reveal_strlit("[");
                    reveal_strlit("]");
                }
                let mut h = String::from_str("[");
                let d = usize_to_string(*ix);
                h.append(d.as_str());
                h.append("]");
                proof {
                    assert(h@ =~= seq!['['] + dec_str(*ix as nat) + seq![']']);
                }
                h
            },
        };
        let rest = steps_text_exec(p, i + 1);
        head.append(rest.as_str());
        head
    }
}

fn render_mismatch(p: &Vec<PathStep>, actual: &JsonValue, expected: &JsonValue) -> (r: String)
    ensures
        r@ == mismatch_msg(p.deep_view(), actual@, expected@),
{
    let mut out = String::from_str("json mismatch at path $");
    let steps = steps_text_exec(p, 0);
    out.append(steps.as_str());
    out.append(": expected ");
    let e = to_text(expected);
    out.append(e.as_str());
    out.append(", got ");
    let a = to_text(actual);
    out.append(a.as_str());
    proof {
        assert(p.deep_view().skip(0) =~= p.deep_view());
    }
    out
}

impl TestRequest {
    /// Hold an executed response against this test case: pass where the
    /// body is structurally equivalent to the fixture document and any
    /// declared status reads as the response's status code; otherwise a
    /// report that cites the difference. A fixture that is not JSON text
    /// is a hard error, as is a block that asks for the one comparison
    /// kind that has none defined.
    pub fn test(&self, actual: &JsonValue, actual_status: u16, fixture_text: &str) -> (r: Result<
        Option<String>,
        TestError,
    >)
        ensures
            match r {
                Err(e) => (self@.result_type == ResultType::Xml && e
                    == TestError::UnsupportedResultKind) || (self@.result_type != ResultType::Xml
                    && json_of(fixture_text@) is None && e == TestError::BadJson),
                Ok(o) => self@.result_type != ResultType::Xml && (json_of(fixture_text@)
                    matches Some(exp) && (match o {
                    None => verdict_ok(self@, actual@, actual_status, exp),
                    Some(m) => !verdict_ok(self@, actual@, actual_status, exp) && ((!json_equiv(
                        actual@,
                        exp,
                    ) && exists|p: Seq<StepSpec>, dl: JsonSpec, dr: JsonSpec|
                        json_at(actual@, p) == Some(dl) && json_at(exp, p) == Some(dr)
                            && !json_equiv(dl, dr) && m@ == mismatch_msg(p, dl, dr)) || (
                    json_equiv(actual@, exp) && (self@.status matches Some(s) && s != dec_str(
                        actual_status as nat,
                    ) && m@ == status_msg(s, dec_str(actual_status as nat))))),
                })),
            },
    {
        match self.expected_result.0 {
            ResultType::Xml => {
                return Err(TestError::UnsupportedResultKind);
            },
            _ => {},
        }
        let expected = match crate::json::parse_json(fixture_text) {
            Some(v) => v,
            None => {
                return Err(TestError::BadJson);
            },
        };
        match json_diff(actual, &expected) {
            Some((p, dl, dr)) => {
                let msg = render_mismatch(&p, dl, dr);
                return Ok(Some(msg));
            },
            None => {},
        }
        match &self.status {
            Some(s) => {
                let st = usize_to_string(actual_status as usize);
                if !str_eq(s.as_str(), st.as_str()) {
                    let mut out = String::from_str("http status does not match: expected ");
                    out.append(s.as_str());
                    out.append(", got ");
                    out.append(st.as_str());
                    Ok(Some(out))
                } else {
                    Ok(None)
                }
            },
            None => Ok(None),
        }
    }
}

} // verus!
