//! The action executor registry: dispatches a resolved payload by plugin
//! identifier. The one built-in executor describes an HTTP request from the
//! payload's `method`, `url`, `headers` and `body` fields; performing the
//! request is outside work done by the host around the library. Any other
//! plugin identifier, or none, is a no-op success.
use vstd::prelude::*;
use vstd::string::StringExecFns;
use crate::bundler::{Payload, PayloadField, fields_view, json_fields_of};

verus! {

/// The HTTP methods the built-in executor supports.
#[derive(Clone, Copy, PartialEq, Eq, Structural, Debug)]
pub enum HttpMethod {
    Get,
    Post,
    Put,
    Delete,
}

/// Why the built-in executor refused a payload: the method is none of the
/// supported four, or `method` or `url` is missing.
#[derive(Clone, Copy, PartialEq, Eq, Structural, Debug)]
pub enum ExecError {
    UnsupportedMethod,
    MissingFields,
}

/// One HTTP request as the built-in executor describes it: everything the host
/// needs to perform the exchange.
#[derive(Clone, Debug)]
pub struct HttpRequest {
    pub method: HttpMethod,
    pub url: String,
    pub headers: Vec<(String, String)>,
    pub body: Option<String>,
}

/// What dispatch decided: an HTTP request to perform, or nothing to do.
#[derive(Clone, Debug)]
pub enum Dispatch {
    Http(HttpRequest),
    NoOp,
}

/// The method a payload names, read case-insensitively over the ASCII letters;
/// `None` for anything but GET, POST, PUT and DELETE.
pub open spec fn spec_parse_method(s: Seq<char>) -> Option<HttpMethod> {
    if s.len() == 3 && (s[0] == 'G' || s[0] == 'g') && (s[1] == 'E' || s[1] == 'e') && (s[2] == 'T'
        || s[2] == 't') {
        Some(HttpMethod::Get)
    } else if s.len() == 4 && (s[0] == 'P' || s[0] == 'p') && (s[1] == 'O' || s[1] == 'o') && (s[2]
        == 'S' || s[2] == 's') && (s[3] == 'T' || s[3] == 't') {
        Some(HttpMethod::Post)
    } else if s.len() == 3 && (s[0] == 'P' || s[0] == 'p') && (s[1] == 'U' || s[1] == 'u') && (s[2]
        == 'T' || s[2] == 't') {
        Some(HttpMethod::Put)
    } else if s.len() == 6 && (s[0] == 'D' || s[0] == 'd') && (s[1] == 'E' || s[1] == 'e') && (s[2]
        == 'L' || s[2] == 'l') && (s[3] == 'E' || s[3] == 'e') && (s[4] == 'T' || s[4] == 't') && (
    s[5] == 'E' || s[5] == 'e') {
        Some(HttpMethod::Delete)
    } else {
        None
    }
}

/// Parses the method field, case-insensitively; fails with
/// `UnsupportedMethod`, and only so, on anything but the supported four.
pub fn parse_method(s: &String) -> (r: Result<HttpMethod, ExecError>)
    ensures
        match r {
            Ok(m) => spec_parse_method(s@) == Some(m),
            Err(e) => e is UnsupportedMethod && spec_parse_method(s@) is None,
        },
{
    let st = s.as_str();
    let n = st.unicode_len();
    if n == 3 {
        let c0 = st.get_char(0);
        let c1 = st.get_char(1);
        let c2 = st.get_char(2);
        if (c0 == 'G' || c0 == 'g') && (c1 == 'E' || c1 == 'e') && (c2 == 'T' || c2 == 't') {
            return Ok(HttpMethod::Get);
        }
        if (c0 == 'P' || c0 == 'p') && (c1 == 'U' || c1 == 'u') && (c2 == 'T' || c2 == 't') {
            return Ok(HttpMethod::Put);
        }
        Err(ExecError::UnsupportedMethod)
    } else if n == 4 {
        let c0 = st.get_char(0);
        let c1 = st.get_char(1);
        let c2 = st.get_char(2);
        let c3 = st.get_char(3);
        if (c0 == 'P' || c0 == 'p') && (c1 == 'O' || c1 == 'o') && (c2 == 'S' || c2 == 's') && (c3
            == 'T' || c3 == 't') {
            return Ok(HttpMethod::Post);
        }
        Err(ExecError::UnsupportedMethod)
    } else if n == 6 {
        let c0 = st.get_char(0);
        let c1 = st.get_char(1);
        let c2 = st.get_char(2);
        let c3 = st.get_char(3);
        let c4 = st.get_char(4);
        let c5 = st.get_char(5);
        if (c0 == 'D' || c0 == 'd') && (c1 == 'E' || c1 == 'e') && (c2 == 'L' || c2 == 'l') && (c3
            == 'E' || c3 == 'e') && (c4 == 'T' || c4 == 't') && (c5 == 'E' || c5 == 'e') {
            return Ok(HttpMethod::Delete);
        }
        Err(ExecError::UnsupportedMethod)
    } else {
        Err(ExecError::UnsupportedMethod)
    }
}

/// First field carrying the given key, at or after position `i`: its value and
/// whether the value was a JSON string.
pub open spec fn field_from(
    fs: Seq<(Seq<char>, Seq<char>, bool)>,
    key: Seq<char>,
    i: int,
) -> Option<(Seq<char>, bool)>
    decreases fs.len() - i,
{
    if i < 0 || i >= fs.len() {
        None
    } else if fs[i].0 == key {
        Some((fs[i].1, fs[i].2))
    } else {
        field_from(fs, key, i + 1)
    }
}

/// The value of the first field carrying the given key, with its kind.
pub open spec fn spec_field(fs: Seq<(Seq<char>, Seq<char>, bool)>, key: Seq<char>) -> Option<
    (Seq<char>, bool),
> {
    field_from(fs, key, 0)
}

/// The string value of the given key: present exactly when the key is and its
/// value was a JSON string.
pub open spec fn spec_text_field(fs: Seq<(Seq<char>, Seq<char>, bool)>, key: Seq<char>) -> Option<
    Seq<char>,
> {
    match spec_field(fs, key) {
        Some((v, true)) => Some(v),
        _ => None,
    }
}

/// Finds the first field carrying the given key.
fn find_field<'a>(payload: &'a Payload, key: &String) -> (r: Option<&'a PayloadField>)
    ensures
        match r {
            Some(f) => spec_field(fields_view(payload.fields@), key@) == Some(
                (f.value@, f.is_text),
            ),
            None => spec_field(fields_view(payload.fields@), key@) is None,
        },
{
    let n = payload.fields.len();
    let mut i: usize = 0;
    while i < n
        invariant
            i <= n,
            n == payload.fields.len(),
            spec_field(fields_view(payload.fields@), key@) == field_from(
                fields_view(payload.fields@),
                key@,
                i as int,
            ),
        decreases n - i,
    {
        if payload.fields[i].key == *key {
            assert(fields_view(payload.fields@)[i as int].0 == key@);
            return Some(&payload.fields[i]);
        }
        assert(fields_view(payload.fields@)[i as int].0 == payload.fields@[i as int].key@);
        assert(field_from(fields_view(payload.fields@), key@, i as int) == field_from(
            fields_view(payload.fields@),
            key@,
            i as int + 1,
        ));
        i = i + 1;
    }
    None
}

/// The header pairs among a decomposition's fields: every field whose value
/// was a JSON string, in field order; any other field is passed over, as a
/// non-string header value carries no header.
pub open spec fn text_entries(fs: Seq<(Seq<char>, Seq<char>, bool)>) -> Seq<(Seq<char>, Seq<char>)>
    decreases fs.len(),
{
    if fs.len() == 0 {
        Seq::empty()
    } else {
        text_entries(fs.drop_last()) + (if fs.last().2 {
            seq![(fs.last().0, fs.last().1)]
        } else {
            Seq::<(Seq<char>, Seq<char>)>::empty()
        })
    }
}

/// View of header pairs.
pub open spec fn headers_view(hs: Seq<(String, String)>) -> Seq<(Seq<char>, Seq<char>)> {
    hs.map_values(|h: (String, String)| (h.0@, h.1@))
}

/// The headers a payload carries: the string-valued fields of its `headers`
/// object; none when the key is absent, its value is not an object, or its
/// value was itself a JSON string.
pub open spec fn spec_headers(fs: Seq<(Seq<char>, Seq<char>, bool)>) -> Seq<
    (Seq<char>, Seq<char>),
> {
    match spec_field(fs, "headers"@) {
        Some((j, false)) => match json_fields_of(j) {
            Some(hf) => text_entries(hf),
            None => Seq::empty(),
        },
        _ => Seq::empty(),
    }
}

/// What the built-in HTTP executor decides for a payload: the url, method,
/// body and headers of the request to perform; `MissingFields` exactly when
/// `method` or `url` has no string value; `UnsupportedMethod` exactly when
/// both are present but the method is not among the supported four.
pub open spec fn http_outcome(fs: Seq<(Seq<char>, Seq<char>, bool)>) -> Result<
    (Seq<char>, HttpMethod, Option<Seq<char>>, Seq<(Seq<char>, Seq<char>)>),
    ExecError,
> {
    match (spec_text_field(fs, "method"@), spec_text_field(fs, "url"@)) {
        (Some(m), Some(u)) => match spec_parse_method(m) {
            Some(method) => Ok((u, method, spec_text_field(fs, "body"@), spec_headers(fs))),
            None => Err(ExecError::UnsupportedMethod),
        },
        _ => Err(ExecError::MissingFields),
    }
}

/// View of an optional body.
pub open spec fn body_view(o: Option<String>) -> Option<Seq<char>> {
    match o {
        Some(s) => Some(s@),
        None => None,
    }
}

/// Describes the HTTP request a resolved payload asks for, exactly as
/// `http_outcome` decides it.
pub fn build_http_request(payload: &Payload) -> (r: Result<HttpRequest, ExecError>)
    ensures
        ({
            let outcome = http_outcome(fields_view(payload.fields@));
            match r {
                Ok(req) => outcome matches Ok(t) && req.url@ == t.0 && req.method == t.1
                    && body_view(req.body) == t.2 && headers_view(req.headers@) == t.3,
                Err(e) => outcome matches Err(e2) && e == e2,
            }
        }),
{
    let method_key = String::from_str("method");
    let url_key = String::from_str("url");
    let body_key = String::from_str("body");
    let headers_key = String::from_str("headers");
    let ghost fs = fields_view(payload.fields@);
    let method_text = match find_field(payload, &method_key) {
        Some(f) if f.is_text => f.value.clone(),
        _ => {
            return Err(ExecError::MissingFields);
        },
    };
    let url = match find_field(payload, &url_key) {
        Some(f) if f.is_text => f.value.clone(),
        _ => {
            return Err(ExecError::MissingFields);
        },
    };
    let method = match parse_method(&method_text) {
        Ok(m) => m,
        Err(e) => {
            return Err(e);
        },
    };
    let body = match find_field(payload, &body_key) {
        Some(f) if f.is_text => Some(f.value.clone()),
        _ => None,
    };
    let mut headers: Vec<(String, String)> = Vec::new();
    match find_field(payload, &headers_key) {
        Some(f) if !f.is_text => {
            match crate::bundler::finish_bundle(f.value.as_str()) {
                Ok(header_payload) => {
                    let nh = header_payload.fields.len();
                    let mut i: usize = 0;
                    while i < nh
                        invariant
                            i <= nh,
                            nh == header_payload.fields.len(),
                            headers_view(headers@) == text_entries(
                                fields_view(header_payload.fields@).take(i as int),
                            ),
                        decreases nh - i,
                    {
                        let hf = &header_payload.fields[i];
                        proof {
                            let hv = fields_view(header_payload.fields@);
                            assert(hv.take(i as int + 1).drop_last() =~= hv.take(i as int));
                            assert(hv.take(i as int + 1).last() == hv[i as int]);
                        }
                        if hf.is_text {
                            headers.push((hf.key.clone(), hf.value.clone()));
                            proof {
                                let hv = fields_view(header_payload.fields@);
                                assert(headers_view(headers@) =~= text_entries(
                                    hv.take(i as int + 1),
                                ));
                            }
                        } else {
                            proof {
                                let hv = fields_view(header_payload.fields@);
                                assert(headers_view(headers@) =~= text_entries(
                                    hv.take(i as int + 1),
                                ));
                            }
                        }
                        i = i + 1;
                    }
                    proof {
                        let hv = fields_view(header_payload.fields@);
                        assert(hv.take(nh as int) =~= hv);
                    }
                },
                Err(_) => {
                    proof {
                        assert(spec_headers(fs) =~= Seq::<(Seq<char>, Seq<char>)>::empty());
                        assert(headers_view(headers@) =~= Seq::<(Seq<char>, Seq<char>)>::empty());
                    }
                },
            }
        },
        _ => {
            proof {
                assert(headers_view(headers@) =~= Seq::<(Seq<char>, Seq<char>)>::empty());
            }
        },
    }
    Ok(HttpRequest { method, url, headers, body })
}

/// Dispatches a resolved payload by plugin identifier: the `http` plugin is
/// the built-in executor; any other identifier, or none, is a no-op success.
pub fn dispatch(plugin_id: &Option<String>, payload: &Payload) -> (r: Result<Dispatch, ExecError>)
    ensures
        ({
            let fs = fields_view(payload.fields@);
            match plugin_id {
                Some(p) => {
                    if p@ == "http"@ {
                        match http_outcome(fs) {
                            Ok(t) => r matches Ok(Dispatch::Http(req)) && req.url@ == t.0
                                && req.method == t.1 && body_view(req.body) == t.2 && headers_view(
                                req.headers@,
                            ) == t.3,
                            Err(e) => r matches Err(e2) && e2 == e,
                        }
                    } else {
                        r matches Ok(Dispatch::NoOp)
                    }
                },
                None => r matches Ok(Dispatch::NoOp),
            }
        }),
{
    let http_key = String::from_str("http");
    match plugin_id {
        Some(p) => {
            if *p == http_key {
                match build_http_request(payload) {
                    Ok(req) => Ok(Dispatch::Http(req)),
                    Err(e) => Err(e),
                }
            } else {
                Ok(Dispatch::NoOp)
            }
        },
        None => Ok(Dispatch::NoOp),
    }
}

} // verus!
