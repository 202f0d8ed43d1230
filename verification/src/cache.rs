//! The cached form of an HTTP response: status, a filtered list of headers, a MIME
//! type and a body, with the projections that shrink a response to a deterministic
//! subset before it is stored, and its binary form.

use vstd::prelude::*;
use vstd::string::*;
use crate::cbor::{
    cbor_decoding, cbor_encoding, cbor_level, decode, decode_unsigned, encode_bytes, encode_dict,
    encode_list, encode_text, encode_unsigned, entries_of, entries_readable, entry_views,
    is_readable, items_of, part_views, structural, unsigned_of, Cbor, CborItem, CborLevel,
    ROUND_TRIP_DEPTH,
};
use crate::text::{
    contains, copy_bytes, first_of, has_entry, has_infix, lemma_first_of_skip, list_entries,
    list_has, lower, split_filtering, str_eq, string_of, to_ascii_lowercase,
};

verus! {

/// A response as it is cached and replayed.
#[derive(Debug, PartialEq, Eq)]
pub struct ResponseData {
    pub status: u16,
    pub headers: Vec<(String, String)>,
    pub body: Vec<u8>,
    pub mime: String,
}

/// The mathematical value of a [`ResponseData`].
pub struct ResponseView {
    pub status: u16,
    pub headers: Seq<(Seq<char>, Seq<char>)>,
    pub body: Seq<u8>,
    pub mime: Seq<char>,
}

impl View for ResponseData {
    type V = ResponseView;

    open spec fn view(&self) -> ResponseView {
        ResponseView {
            status: self.status,
            headers: self.headers.deep_view(),
            body: self.body@,
            mime: self.mime@,
        }
    }
}

/// A header as it arrives from the upstream: a lower-case name and the bytes of the value.
pub type RawHeader = (String, Vec<u8>);

/// The values of a list of arriving headers.
pub open spec fn raw_views(headers: Seq<RawHeader>) -> Seq<(Seq<char>, Seq<u8>)> {
    headers.map_values(|h: RawHeader| (h.0@, h.1@))
}

/// Whether a byte of a header value is printable ASCII or a tab.
pub open spec fn is_visible_ascii(b: u8) -> bool {
    (32 <= b && b < 127) || b == 9
}

/// The text of a header value: its bytes as characters, where all of them are
/// printable ASCII or tabs.
pub open spec fn header_text(value: Seq<u8>) -> Option<Seq<char>> {
    if forall|i: int| 0 <= i < value.len() ==> is_visible_ascii(#[trigger] value[i]) {
        Some(value.map_values(|b: u8| b as char))
    } else {
        None
    }
}

/// The response after one arriving header: `content-type` sets the MIME type,
/// `content-length` is dropped, a header without a text is dropped, and any other
/// header is kept where the allow-list is empty or names it.
pub open spec fn with_header(r: ResponseView, header: (Seq<char>, Seq<u8>), allow: Seq<Seq<char>>) -> ResponseView {
    match header_text(header.1) {
        None => r,
        Some(text) => if header.0 == "content-type"@ {
            ResponseView { mime: text, ..r }
        } else if header.0 != "content-length"@ && (allow.len() == 0 || has_entry(
            allow,
            header.0,
        )) {
            ResponseView { headers: r.headers.push((header.0, text)), ..r }
        } else {
            r
        },
    }
}

/// The response after a list of arriving headers, taken in order.
pub open spec fn with_headers_from(r: ResponseView, headers: Seq<(Seq<char>, Seq<u8>)>, allow: Seq<Seq<char>>) -> ResponseView
    decreases headers.len(),
{
    if headers.len() == 0 {
        r
    } else {
        with_header(with_headers_from(r, headers.drop_last(), allow), headers.last(), allow)
    }
}

/// The text of a header value, if it has one.
pub fn header_value_text(value: &[u8]) -> (r: Option<String>)
    ensures
        match header_text(value@) {
            Some(text) => r matches Some(s) && s@ == text,
            None => r is None,
        },
{
    let mut chars: Vec<char> = Vec::new();
    let mut i: usize = 0;
    while i < value.len()
        invariant
            i <= value.len(),
            forall|j: int| 0 <= j < i ==> is_visible_ascii(#[trigger] value@[j]),
            chars@ == value@.take(i as int).map_values(|b: u8| b as char),
        decreases value.len() - i,
    {
        let b = value[i];
        if !((32 <= b && b < 127) || b == 9) {
            return None;
        }
        chars.push(b as char);
        assert(chars@ =~= value@.take(i + 1).map_values(|b: u8| b as char));
        i += 1;
    }
    assert(value@.take(value.len() as int) =~= value@);
    Some(string_of(chars.as_slice()))
}

impl Default for ResponseData {
    fn default() -> (r: Self)
        ensures
            r@ == (ResponseView {
                status: 200,
                headers: Seq::empty(),
                body: Seq::empty(),
                mime: "text/plain"@,
            }),
    {
        Self::new(200)
    }
}

impl Clone for ResponseData {
    fn clone(&self) -> (r: Self)
        ensures
            r@ == self@,
    {
        let mut headers: Vec<(String, String)> = Vec::new();
        let mut i: usize = 0;
        while i < self.headers.len()
            invariant
                i <= self.headers.len(),
                headers.deep_view() == self.headers.deep_view().take(i as int),
            decreases self.headers.len() - i,
        {
            let ghost before = headers.deep_view();
            let h = &self.headers[i];
            headers.push((h.0.clone(), h.1.clone()));
            assert(headers.deep_view() =~= before.push((h.0@, h.1@)));
            assert(self.headers.deep_view()[i as int] == (h.0@, h.1@));
            assert(self.headers.deep_view().take(i + 1) =~= self.headers.deep_view().take(
                i as int,
            ).push((h.0@, h.1@)));
            i += 1;
        }
        assert(self.headers.deep_view().take(self.headers.len() as int) =~= self.headers.deep_view());
        ResponseData {
            status: self.status,
            headers,
            body: copy_bytes(self.body.as_slice()),
            mime: self.mime.clone(),
        }
    }
}

impl ResponseData {
    /// An empty response with the given status and the MIME type `text/plain`.
    pub fn new(status: u16) -> (r: Self)
        ensures
            r@ == (ResponseView {
                status,
                headers: Seq::empty(),
                body: Seq::empty(),
                mime: "text/plain"@,
            }),
    {
        let r = ResponseData {
            status,
            headers: Vec::new(),
            body: Vec::new(),
            mime: "text/plain".to_string(),
        };
        assert(r.headers.deep_view() =~= Seq::<(Seq<char>, Seq<char>)>::empty());
        r
    }

    /// Takes over the headers of the upstream, in their order. `filtering` is a
    /// comma-separated allow-list of header names, matched without regard to case;
    /// where it is empty every header is allowed. See [`with_header`].
    pub fn with_headers(&mut self, headers: &[RawHeader], filtering: &str)
        ensures
            final(self)@ == with_headers_from(
                old(self)@,
                raw_views(headers@),
                list_entries(lower(filtering@)),
            ),
    {
        let lowered = to_ascii_lowercase(filtering);
        let allow = split_filtering(lowered.as_str());
        let ghost start = self@;
        let ghost all = raw_views(headers@);
        let ghost allowed = list_entries(lower(filtering@));
        let mut i: usize = 0;
        while i < headers.len()
            invariant
                i <= headers.len(),
                all == raw_views(headers@),
                allow.deep_view() == allowed,
                self@ == with_headers_from(start, all.take(i as int), allowed),
            decreases headers.len() - i,
        {
            proof {
                assert(all.take(i + 1).drop_last() =~= all.take(i as int));
                assert(all.take(i + 1).last() == (headers@[i as int].0@, headers@[i as int].1@));
                assert(allow.deep_view().len() == allow.len());
            }
            let name = headers[i].0.as_str();
            match header_value_text(headers[i].1.as_slice()) {
                None => {},
                Some(text) => {
                    if str_eq(name, "content-type") {
                        self.mime = text;
                    } else if !str_eq(name, "content-length") && (allow.len() == 0 || list_has(
                        &allow,
                        name,
                    )) {
                        let ghost before = self.headers.deep_view();
                        self.headers.push((headers[i].0.clone(), text));
                        assert(self.headers.deep_view() =~= before.push((name@, text@)));
                    }
                },
            }
            i += 1;
        }
        assert(all.take(headers.len() as int) =~= all);
    }
}

/// Why a body or a cached response could not be taken.
#[derive(Debug)]
pub enum CodecError {
    /// The body is not JSON; the text says why.
    Json(String),
    /// The body is not CBOR.
    Cbor,
    /// The bytes are not the binary form of a response.
    Response,
}

impl CodecError {
    /// The text that describes the error.
    pub open spec fn message_spec(&self) -> Seq<char> {
        match self {
            CodecError::Json(why) => why@,
            CodecError::Cbor => "failed to decode CBOR data"@,
            CodecError::Response => "failed to decode response data"@,
        }
    }

    /// The text that describes the error.
    pub fn message(&self) -> (s: String)
        ensures
            s@ == self.message_spec(),
    {
        match self {
            CodecError::Json(why) => why.clone(),
            CodecError::Cbor => "failed to decode CBOR data".to_string(),
            CodecError::Response => "failed to decode response data".to_string(),
        }
    }
}

/// The text of what went wrong with a body.
pub open spec fn body_fault_text(fault: BodyFault) -> Seq<char> {
    match fault {
        BodyFault::Json(why) => why,
        BodyFault::Cbor => "failed to decode CBOR data"@,
    }
}

/// The item that stands for a header: the pair of its name and its value.
pub open spec fn header_item(h: (Seq<char>, Seq<char>)) -> CborItem {
    CborItem::List(seq![CborItem::Text(h.0), CborItem::Text(h.1)])
}

/// The item that stands for a response: a map with the entries `status`,
/// `headers`, `body` and `mime`, in this order.
pub open spec fn response_item(r: ResponseView) -> CborItem {
    CborItem::Dict(
        seq![
            (CborItem::Text("status"@), CborItem::Unsigned(r.status as u64)),
            (
                CborItem::Text("headers"@),
                CborItem::List(r.headers.map_values(|h: (Seq<char>, Seq<char>)| header_item(h))),
            ),
            (CborItem::Text("body"@), CborItem::Bytes(r.body)),
            (CborItem::Text("mime"@), CborItem::Text(r.mime)),
        ],
    )
}

/// The binary form of a response.
pub open spec fn response_bytes(r: ResponseView) -> Seq<u8> {
    cbor_encoding(response_item(r))
}

/// The binary form of the value of the first entry of a map whose key is read as
/// the text `name`.
pub open spec fn field(es: Seq<(Seq<u8>, Seq<u8>)>, name: Seq<char>) -> Option<Seq<u8>>
    decreases es.len(),
{
    if es.len() == 0 {
        None
    } else if cbor_level(es.first().0) == Some(CborLevel::Text(name)) {
        Some(es.first().1)
    } else {
        field(es.drop_first(), name)
    }
}

/// The header that `data` is the binary form of, if it is one: an array of two
/// elements that are read as texts.
pub open spec fn parsed_header(data: Seq<u8>) -> Option<(Seq<char>, Seq<char>)> {
    match cbor_level(data) {
        Some(CborLevel::List(ps)) => if ps.len() == 2 {
            match (cbor_level(ps[0]), cbor_level(ps[1])) {
                (Some(CborLevel::Text(name)), Some(CborLevel::Text(value))) => Some((name, value)),
                _ => None,
            }
        } else {
            None
        },
        _ => None,
    }
}

/// The response that the entries of a map stand for, if they stand for one: the
/// entry `status` is read as an unsigned integer of sixteen bits, `headers` as an
/// array of headers, `body` as a byte string and `mime` as a text.
pub open spec fn response_of(es: Seq<(Seq<u8>, Seq<u8>)>) -> Option<ResponseView> {
    match (field(es, "status"@), field(es, "headers"@), field(es, "body"@), field(es, "mime"@)) {
        (Some(s), Some(h), Some(b), Some(m)) => match (
            unsigned_of(s),
            cbor_level(h),
            cbor_level(b),
            cbor_level(m),
        ) {
            (
                Some(status),
                Some(CborLevel::List(hs)),
                Some(CborLevel::Bytes(body)),
                Some(CborLevel::Text(mime)),
            ) => if status <= u16::MAX && (forall|i: int|
                0 <= i < hs.len() ==> parsed_header(#[trigger] hs[i]) is Some) {
                Some(
                    ResponseView {
                        status: status as u16,
                        headers: hs.map_values(|h: Seq<u8>| parsed_header(h).unwrap()),
                        body,
                        mime,
                    },
                )
            } else {
                None
            },
            _ => None,
        },
        _ => None,
    }
}

/// The response that `data` is the binary form of, if it is one.
pub open spec fn parsed_response(data: Seq<u8>) -> Option<ResponseView> {
    match cbor_level(data) {
        Some(CborLevel::Dict(es)) => response_of(es),
        _ => None,
    }
}

/// The names of the four entries are four different texts.
proof fn lemma_field_names_differ()
    ensures
        "status"@ != "headers"@,
        "status"@ != "body"@,
        "status"@ != "mime"@,
        "headers"@ != "body"@,
        "headers"@ != "mime"@,
        "body"@ != "mime"@,
{
    reveal_strlit("status");
    reveal_strlit("headers");
    reveal_strlit("body");
    reveal_strlit("mime");
    assert("status"@.len() == 6);
    assert("headers"@.len() == 7);
    assert("body"@.len() == 4);
    assert("mime"@.len() == 4);
    assert("body"@[0] != "mime"@[0]);
}

/// The item of a response is made of integers, strings, arrays and maps, a few
/// levels deep.
proof fn lemma_response_item_structural(r: ResponseView)
    ensures
        structural(response_item(r), ROUND_TRIP_DEPTH as nat),
{
    reveal_with_fuel(structural, 4);
    let es = response_item(r)->Dict_0;
    let hs = r.headers.map_values(|h: (Seq<char>, Seq<char>)| header_item(h));
    assert forall|i: int| 0 <= i < hs.len() implies structural(
        #[trigger] hs[i],
        (ROUND_TRIP_DEPTH - 2) as nat,
    ) by {
        let pair = hs[i]->List_0;
        assert forall|j: int| 0 <= j < pair.len() implies structural(
            #[trigger] pair[j],
            (ROUND_TRIP_DEPTH - 3) as nat,
        ) by {}
    }
    assert forall|i: int| 0 <= i < es.len() implies structural(
        (#[trigger] es[i]).0,
        (ROUND_TRIP_DEPTH - 1) as nat,
    ) && structural(es[i].1, (ROUND_TRIP_DEPTH - 1) as nat) by {}
}

/// Skipping entries with other keys does not change which value is found.
proof fn lemma_field_skip(es: Seq<(Seq<u8>, Seq<u8>)>, name: Seq<char>, i: int)
    requires
        0 <= i <= es.len(),
        forall|j: int|
            0 <= j < i ==> cbor_level((#[trigger] es[j]).0) != Some(CborLevel::Text(name)),
    ensures
        field(es, name) == field(es.skip(i), name),
    decreases i,
{
    if i == 0 {
        assert(es.skip(0) =~= es);
    } else {
        assert(cbor_level(es[0].0) != Some(CborLevel::Text(name)));
        let rest = es.drop_first();
        assert forall|j: int| 0 <= j < i - 1 implies cbor_level((#[trigger] rest[j]).0) != Some(
            CborLevel::Text(name),
        ) by {
            assert(rest[j] == es[j + 1]);
        }
        lemma_field_skip(rest, name, i - 1);
        assert(rest.skip(i - 1) =~= es.skip(i));
    }
}

/// The position of the first entry whose key is read as the text `name`.
fn find_field(parts: &Vec<(Vec<u8>, Vec<u8>)>, name: &str) -> (r: Option<usize>)
    ensures
        match field(entry_views(parts@), name@) {
            Some(value) => r matches Some(i) && i < parts.len() && parts[i as int].1@ == value,
            None => r is None,
        },
{
    let ghost es = entry_views(parts@);
    let mut i: usize = 0;
    while i < parts.len()
        invariant
            i <= parts.len(),
            es == entry_views(parts@),
            forall|j: int|
                0 <= j < i ==> cbor_level((#[trigger] es[j]).0) != Some(CborLevel::Text(name@)),
        decreases parts.len() - i,
    {
        let found = match decode(parts[i].0.as_slice()) {
            Some(Cbor::Text(t)) => str_eq(t.as_str(), name),
            _ => false,
        };
        assert(es[i as int] == (parts[i as int].0@, parts[i as int].1@));
        if found {
            proof {
                lemma_field_skip(es, name@, i as int);
                assert(es.skip(i as int).first() == es[i as int]);
            }
            return Some(i);
        }
        i += 1;
    }
    proof {
        lemma_field_skip(es, name@, i as int);
        assert(es.skip(i as int).len() == 0);
    }
    None
}

/// The header that `data` is the binary form of.
fn decode_header(data: &[u8]) -> (r: Option<(String, String)>)
    ensures
        match parsed_header(data@) {
            Some(h) => r matches Some(pair) && (pair.0@, pair.1@) == h,
            None => r is None,
        },
{
    let parts = match decode(data) {
        Some(Cbor::List(parts)) => parts,
        _ => { return None; },
    };
    if parts.len() != 2 {
        return None;
    }
    assert(cbor_level(data@) == Some(CborLevel::List(part_views(parts@))));
    let name = match decode(parts[0].as_slice()) {
        Some(Cbor::Text(t)) => t,
        _ => { return None; },
    };
    let value = match decode(parts[1].as_slice()) {
        Some(Cbor::Text(t)) => t,
        _ => { return None; },
    };
    Some((name, value))
}

/// The binary form of a header; it is read back as the same header.
fn encode_header(name: &str, value: &str) -> (out: Vec<u8>)
    ensures
        out@ == cbor_encoding(header_item((name@, value@))),
        cbor_decoding(out@) == Some(header_item((name@, value@))),
        parsed_header(out@) == Some((name@, value@)),
{
    let mut parts: Vec<Vec<u8>> = Vec::new();
    parts.push(encode_text(name));
    parts.push(encode_text(value));
    let ghost xs = seq![CborItem::Text(name@), CborItem::Text(value@)];
    let ghost ps = part_views(parts@);
    proof {
        assert(items_of(ps) =~= xs);
        assert forall|i: int| 0 <= i < xs.len() implies structural(
            #[trigger] xs[i],
            (ROUND_TRIP_DEPTH - 1) as nat,
        ) by {}
    }
    let out = encode_list(parts);
    proof {
        assert(xs.map_values(|x: CborItem| cbor_encoding(x)) =~= ps);
        assert(cbor_level(out@) == Some(CborLevel::List(ps)));
    }
    out
}

impl ResponseData {
    /// The binary form of the response; see [`ResponseData::encode`]. It is never
    /// an error.
    pub fn to_bytes(&self) -> (r: Result<Vec<u8>, CodecError>)
        ensures
            r matches Ok(bytes) && bytes@ == response_bytes(self@) && bytes@.len() > 1
                && parsed_response(bytes@) == Some(self@),
    {
        Ok(self.encode())
    }

    /// The binary form of the response. It is longer than one byte, and it is read
    /// back as the same response.
    pub fn encode(&self) -> (bytes: Vec<u8>)
        ensures
            bytes@ == response_bytes(self@),
            bytes@.len() > 1,
            parsed_response(bytes@) == Some(self@),
    {
        let ghost view = self@;
        let ghost hs = view.headers.map_values(|h: (Seq<char>, Seq<char>)| header_item(h));
        let mut headers: Vec<Vec<u8>> = Vec::new();
        let mut i: usize = 0;
        while i < self.headers.len()
            invariant
                i <= self.headers.len(),
                view == self@,
                hs == view.headers.map_values(|h: (Seq<char>, Seq<char>)| header_item(h)),
                headers.len() == i,
                forall|j: int|
                    0 <= j < i ==> cbor_decoding((#[trigger] headers[j])@) == Some(hs[j])
                        && headers[j]@ == cbor_encoding(hs[j]) && parsed_header(headers[j]@)
                        == Some(view.headers[j]),
            decreases self.headers.len() - i,
        {
            let h = &self.headers[i];
            assert(view.headers[i as int] == (h.0@, h.1@));
            headers.push(encode_header(h.0.as_str(), h.1.as_str()));
            i += 1;
        }
        let ghost hps = part_views(headers@);
        assert(items_of(hps) =~= hs);
        proof {
            lemma_response_item_structural(view);
            reveal_with_fuel(structural, 4);
        }
        let headers_bytes = encode_list(headers);
        let mut parts: Vec<(Vec<u8>, Vec<u8>)> = Vec::new();
        parts.push((encode_text("status"), encode_unsigned(self.status as u64)));
        parts.push((encode_text("headers"), headers_bytes));
        parts.push((encode_text("body"), encode_bytes(self.body.as_slice())));
        parts.push((encode_text("mime"), encode_text(self.mime.as_str())));
        let ghost es = response_item(view)->Dict_0;
        let ghost eps = entry_views(parts@);
        proof {
            assert(structural(es[1].1, (ROUND_TRIP_DEPTH - 1) as nat));
            assert(cbor_decoding(headers_bytes@) == Some(CborItem::List(hs)));
            assert(entries_of(eps) =~= es);
        }
        let bytes = encode_dict(parts);
        proof {
            assert(es.map_values(
                |e: (CborItem, CborItem)| (cbor_encoding(e.0), cbor_encoding(e.1)),
            ) =~= eps);
            assert(cbor_level(bytes@) == Some(CborLevel::Dict(eps)));
            lemma_field_names_differ();
            reveal_with_fuel(field, 5);
            assert(eps.drop_first().first() == eps[1]);
            assert(eps.drop_first().drop_first().first() == eps[2]);
            assert(eps.drop_first().drop_first().drop_first().first() == eps[3]);
            assert(field(eps, "status"@) == Some(eps[0].1));
            assert(field(eps, "headers"@) == Some(eps[1].1));
            assert(field(eps, "body"@) == Some(eps[2].1));
            assert(field(eps, "mime"@) == Some(eps[3].1));
            assert(hs.map_values(|x: CborItem| cbor_encoding(x)) =~= hps);
            assert(cbor_level(eps[1].1) == Some(CborLevel::List(hps)));
            assert(hps.map_values(|h: Seq<u8>| parsed_header(h).unwrap()) =~= view.headers);
        }
        bytes
    }

    /// The response that `data` is the binary form of.
    pub fn from_bytes(data: &[u8]) -> (r: Result<ResponseData, CodecError>)
        ensures
            match parsed_response(data@) {
                Some(view) => r matches Ok(rd) && rd@ == view,
                None => r matches Err(CodecError::Response),
            },
    {
        let parts = match decode(data) {
            Some(Cbor::Dict(parts)) => parts,
            _ => { return Err(CodecError::Response); },
        };
        let ghost es = entry_views(parts@);
        assert(cbor_level(data@) == Some(CborLevel::Dict(es)));
        let (si, hi, bi, mi) = match (
            find_field(&parts, "status"),
            find_field(&parts, "headers"),
            find_field(&parts, "body"),
            find_field(&parts, "mime"),
        ) {
            (Some(si), Some(hi), Some(bi), Some(mi)) => (si, hi, bi, mi),
            _ => { return Err(CodecError::Response); },
        };
        let status = match decode_unsigned(parts[si].1.as_slice()) {
            Some(n) => n,
            None => { return Err(CodecError::Response); },
        };
        let hparts = match decode(parts[hi].1.as_slice()) {
            Some(Cbor::List(hparts)) => hparts,
            _ => { return Err(CodecError::Response); },
        };
        let body = match decode(parts[bi].1.as_slice()) {
            Some(Cbor::Bytes(b)) => b,
            _ => { return Err(CodecError::Response); },
        };
        let mime = match decode(parts[mi].1.as_slice()) {
            Some(Cbor::Text(t)) => t,
            _ => { return Err(CodecError::Response); },
        };
        if status > 0xffff {
            return Err(CodecError::Response);
        }
        let ghost hs = part_views(hparts@);
        let mut headers: Vec<(String, String)> = Vec::new();
        let mut i: usize = 0;
        while i < hparts.len()
            invariant
                i <= hparts.len(),
                hs == part_views(hparts@),
                cbor_level(data@) == Some(CborLevel::Dict(es)),
                field(es, "status"@) == Some(parts[si as int].1@),
                field(es, "headers"@) == Some(parts[hi as int].1@),
                field(es, "body"@) == Some(parts[bi as int].1@),
                field(es, "mime"@) == Some(parts[mi as int].1@),
                unsigned_of(parts[si as int].1@) == Some(status),
                cbor_level(parts[hi as int].1@) == Some(CborLevel::List(hs)),
                cbor_level(parts[bi as int].1@) == Some(CborLevel::Bytes(body@)),
                cbor_level(parts[mi as int].1@) == Some(CborLevel::Text(mime@)),
                status <= 0xffff,
                forall|j: int| 0 <= j < i ==> parsed_header(#[trigger] hs[j]) is Some,
                headers.deep_view() == hs.take(i as int).map_values(
                    |h: Seq<u8>| parsed_header(h).unwrap(),
                ),
            decreases hparts.len() - i,
        {
            assert(hs[i as int] == hparts[i as int]@);
            match decode_header(hparts[i].as_slice()) {
                Some(pair) => {
                    let ghost before = headers.deep_view();
                    headers.push(pair);
                    assert(headers.deep_view() =~= before.push((pair.0@, pair.1@)));
                    assert(hs.take(i + 1).map_values(|h: Seq<u8>| parsed_header(h).unwrap())
                        =~= hs.take(i as int).map_values(
                        |h: Seq<u8>| parsed_header(h).unwrap(),
                    ).push(parsed_header(hs[i as int]).unwrap()));
                },
                None => {
                    assert(parsed_header(hs[i as int]) is None);
                    return Err(CodecError::Response);
                },
            }
            i += 1;
        }
        assert(hs.take(hparts.len() as int) =~= hs);
        Ok(ResponseData { status: status as u16, headers, body, mime })
    }
}

/// A member of a JSON object: its name and its value as JSON text.
pub type JsonMember = (String, Vec<u8>);

/// The values of a list of members.
pub open spec fn member_views(members: Seq<JsonMember>) -> Seq<(Seq<char>, Seq<u8>)> {
    members.map_values(|m: JsonMember| (m.0@, m.1@))
}

/// What `serde_json::from_slice` reads from `body`: the text of its error where
/// the bytes are not JSON, else the members of the object that the text holds, in
/// the order in which the parsed object keeps them, each value as the text that
/// `serde_json::to_vec` writes for it; no members where the text holds a value
/// that is no object.
pub uninterp spec fn json_members(body: Seq<u8>) -> Result<Seq<(Seq<char>, Seq<u8>)>, Seq<char>>;

/// The text that `serde_json::to_vec` writes for the object into which these
/// members are inserted in order.
pub uninterp spec fn json_object_text(members: Seq<(Seq<char>, Seq<u8>)>) -> Seq<u8>;

/// `serde_json::from_slice` to a `Value`, an object taken apart with each value
/// written by `serde_json::to_vec`; the error's own text where the bytes are not JSON.
#[verifier::external_body]
fn json_read_members(body: &[u8]) -> (r: Result<Vec<JsonMember>, String>)
    ensures
        match json_members(body@) {
            Ok(members) => r matches Ok(ms) && member_views(ms@) == members && forall|i: int|
                0 <= i < ms.len() ==> json_members((#[trigger] ms[i]).1@) is Ok,
            Err(why) => r matches Err(e) && e@ == why,
        },
{
    match serde_json::from_slice::<serde_json::Value>(body) {
        Ok(serde_json::Value::Object(map)) => Ok(
            map.iter().map(|m| (m.0.clone(), serde_json::to_vec(m.1).expect("a value"))).collect(),
        ),
        Ok(_) => Ok(Vec::new()),
        Err(err) => Err(err.to_string()),
    }
}

/// `serde_json::to_vec` on the `serde_json::Map` into which the members are
/// inserted in order, each value read with `serde_json::from_slice`.
#[verifier::external_body]
fn json_write_object(members: &Vec<JsonMember>) -> (out: Vec<u8>)
    requires
        forall|i: int| 0 <= i < members.len() ==> json_members((#[trigger] members[i]).1@) is Ok,
    ensures
        out@ == json_object_text(member_views(members@)),
{
    let map: serde_json::Map<String, serde_json::Value> = members.iter().map(
        |m| (m.0.clone(), serde_json::from_slice(&m.1).expect("a JSON text")),
    ).collect();
    serde_json::to_vec(&map).expect("an object is written")
}

/// Whether one of the members has this name.
pub open spec fn has_member(members: Seq<(Seq<char>, Seq<u8>)>, name: Seq<char>) -> bool {
    exists|i: int| 0 <= i < members.len() && (#[trigger] members[i]).0 == name
}

/// The members that a mask keeps: for each name of the mask, in the order of the
/// mask, the member of that name if there is one. A name that occurs twice in the
/// mask counts once.
pub open spec fn projected(members: Seq<(Seq<char>, Seq<u8>)>, mask: Seq<Seq<char>>) -> Seq<
    (Seq<char>, Seq<u8>),
>
    decreases mask.len(),
{
    if mask.len() == 0 {
        Seq::empty()
    } else {
        let before = projected(members, mask.drop_last());
        match first_of(members, mask.last()) {
            Some(value) => if has_member(before, mask.last()) {
                before
            } else {
                before.push((mask.last(), value))
            },
            None => before,
        }
    }
}

/// Whether a mask keeps an entry of a CBOR map, given in binary form: its key is
/// read as a text that the mask names.
pub open spec fn kept_entry(mask: Seq<Seq<char>>) -> spec_fn((Seq<u8>, Seq<u8>)) -> bool {
    |e: (Seq<u8>, Seq<u8>)|
        cbor_level(e.0) matches Some(CborLevel::Text(name)) && has_entry(mask, name)
}

/// The map of the entries that a mask keeps of a CBOR map whose entries are given
/// in binary form, in binary form again; none where the value of an entry that is
/// kept cannot be read.
pub open spec fn masked_map(es: Seq<(Seq<u8>, Seq<u8>)>, mask: Seq<Seq<char>>) -> Option<
    Seq<u8>,
> {
    let kept = es.filter(kept_entry(mask));
    if entries_readable(kept) {
        Some(cbor_encoding(CborItem::Dict(entries_of(kept))))
    } else {
        None
    }
}

/// What went wrong with a body: it is not JSON, for the reason given, or not CBOR.
pub enum BodyFault {
    Json(Seq<char>),
    Cbor,
}

/// The body of a response after the body of the upstream has been taken under the
/// mask `filtering`.
///
/// With a status of 300 or more, or an empty mask, the bytes are appended as they
/// are. Else a JSON body (the MIME type holds `application/json`) is replaced by
/// the object of the members that the mask keeps, and a CBOR body (the MIME type
/// holds `application/cbor`) by the map of the entries that the mask keeps, an
/// empty map where the body is no map. A CBOR body that cannot be read, or that
/// holds under a name of the mask a value whose binary form cannot be read, is a
/// fault. Any other body is appended as it is.
pub open spec fn body_after(r: ResponseView, body: Seq<u8>, filtering: Seq<char>) -> Result<
    Seq<u8>,
    BodyFault,
> {
    let mask = list_entries(filtering);
    if r.status >= 300 || mask.len() == 0 {
        Ok(r.body + body)
    } else if has_infix(r.mime, "application/json"@) {
        match json_members(body) {
            Ok(members) => Ok(json_object_text(projected(members, mask))),
            Err(why) => Err(BodyFault::Json(why)),
        }
    } else if has_infix(r.mime, "application/cbor"@) {
        match cbor_level(body) {
            None => Err(BodyFault::Cbor),
            Some(CborLevel::Dict(es)) => match masked_map(es, mask) {
                Some(bytes) => Ok(bytes),
                None => Err(BodyFault::Cbor),
            },
            Some(_) => Ok(cbor_encoding(CborItem::Dict(Seq::empty()))),
        }
    } else {
        Ok(r.body + body)
    }
}

/// The position of the first member with this name.
fn find_member(members: &Vec<JsonMember>, name: &str) -> (r: Option<usize>)
    ensures
        match first_of(member_views(members@), name@) {
            Some(value) => r matches Some(i) && i < members.len() && members[i as int].1@ == value,
            None => r is None,
        },
        r is Some <==> has_member(member_views(members@), name@),
{
    let ghost ms = member_views(members@);
    let mut i: usize = 0;
    while i < members.len()
        invariant
            i <= members.len(),
            ms == member_views(members@),
            forall|j: int| 0 <= j < i ==> (#[trigger] ms[j]).0 != name@,
        decreases members.len() - i,
    {
        assert(ms[i as int] == (members[i as int].0@, members[i as int].1@));
        if str_eq(members[i].0.as_str(), name) {
            proof {
                lemma_first_of_skip(ms, name@, i as int);
                assert(ms.skip(i as int).first() == ms[i as int]);
            }
            return Some(i);
        }
        i += 1;
    }
    proof {
        lemma_first_of_skip(ms, name@, i as int);
        assert(ms.skip(i as int).len() == 0);
    }
    None
}

/// The members that the mask keeps.
fn project_members(members: &Vec<JsonMember>, mask: &Vec<String>) -> (out: Vec<JsonMember>)
    requires
        forall|i: int| 0 <= i < members.len() ==> json_members((#[trigger] members[i]).1@) is Ok,
    ensures
        member_views(out@) == projected(member_views(members@), mask.deep_view()),
        forall|i: int| 0 <= i < out.len() ==> json_members((#[trigger] out[i]).1@) is Ok,
{
    let ghost ms = member_views(members@);
    let ghost names = mask.deep_view();
    let mut out: Vec<JsonMember> = Vec::new();
    let mut k: usize = 0;
    assert(member_views(out@) =~= projected(ms, names.take(0)));
    while k < mask.len()
        invariant
            k <= mask.len(),
            ms == member_views(members@),
            names == mask.deep_view(),
            forall|i: int|
                0 <= i < members.len() ==> json_members((#[trigger] members[i]).1@) is Ok,
            member_views(out@) == projected(ms, names.take(k as int)),
            forall|i: int| 0 <= i < out.len() ==> json_members((#[trigger] out[i]).1@) is Ok,
        decreases mask.len() - k,
    {
        let name = mask[k].as_str();
        proof {
            assert(names.take(k + 1).drop_last() =~= names.take(k as int));
            assert(names.take(k + 1).last() == name@);
        }
        match find_member(members, name) {
            Some(at) => {
                if find_member(&out, name).is_none() {
                    let ghost before = member_views(out@);
                    let value = copy_bytes(members[at].1.as_slice());
                    out.push((mask[k].clone(), value));
                    assert(member_views(out@) =~= before.push((name@, value@)));
                }
            },
            None => {},
        }
        k += 1;
    }
    assert(names.take(mask.len() as int) =~= names);
    out
}

/// The entries of a CBOR map that the mask keeps, as long as the value of each can
/// be read; none where one cannot.
fn keep_entries(parts: Vec<(Vec<u8>, Vec<u8>)>, mask: &Vec<String>) -> (r: Option<
    Vec<(Vec<u8>, Vec<u8>)>,
>)
    ensures
        match r {
            Some(out) => entry_views(out@) == entry_views(parts@).filter(
                kept_entry(mask.deep_view()),
            ) && entries_readable(entry_views(out@)),
            None => !entries_readable(entry_views(parts@).filter(kept_entry(mask.deep_view()))),
        },
{
    let ghost es = entry_views(parts@);
    let ghost keep = kept_entry(mask.deep_view());
    let mut out: Vec<(Vec<u8>, Vec<u8>)> = Vec::new();
    let mut i: usize = 0;
    assert(entry_views(out@) =~= es.take(0).filter(keep)) by {
        assert(es.take(0) =~= Seq::<(Seq<u8>, Seq<u8>)>::empty());
        es.take(0).lemma_filter_len(keep);
    }
    while i < parts.len()
        invariant
            i <= parts.len(),
            es == entry_views(parts@),
            keep == kept_entry(mask.deep_view()),
            entry_views(out@) == es.take(i as int).filter(keep),
            entries_readable(entry_views(out@)),
        decreases parts.len() - i,
    {
        let kept = match decode(parts[i].0.as_slice()) {
            Some(Cbor::Text(t)) => list_has(mask, t.as_str()),
            _ => false,
        };
        proof {
            assert(es[i as int] == (parts[i as int].0@, parts[i as int].1@));
            assert(es.take(i + 1) =~= es.take(i as int).push(es[i as int]));
            es.take(i as int).lemma_filter_push(es[i as int], keep);
            assert(kept == keep(es[i as int]));
        }
        if kept {
            if !is_readable(parts[i].1.as_slice()) {
                proof {
                    lemma_unreadable_stays(es, keep, i as int);
                }
                return None;
            }
            let ghost before = entry_views(out@);
            let key = copy_bytes(parts[i].0.as_slice());
            let value = copy_bytes(parts[i].1.as_slice());
            out.push((key, value));
            assert(entry_views(out@) =~= before.push(es[i as int]));
        }
        i += 1;
    }
    assert(es.take(parts.len() as int) =~= es);
    Some(out)
}

/// An entry that is kept and cannot be read is among the entries that are kept.
proof fn lemma_unreadable_stays(
    es: Seq<(Seq<u8>, Seq<u8>)>,
    keep: spec_fn((Seq<u8>, Seq<u8>)) -> bool,
    i: int,
)
    requires
        0 <= i < es.len(),
        keep(es[i]),
        cbor_decoding(es[i].1) is None,
    ensures
        !entries_readable(es.filter(keep)),
{
    es.lemma_filter_contains(keep, i);
    let kept = es.filter(keep);
    assert(kept.contains(es[i]));
    let j = choose|j: int| 0 <= j < kept.len() && kept[j] == es[i];
    assert(cbor_decoding(kept[j].1) is None);
}

/// Appends `more` to `bytes`.
fn append_bytes(bytes: &mut Vec<u8>, more: &[u8])
    ensures
        final(bytes)@ == old(bytes)@ + more@,
{
    let mut i: usize = 0;
    while i < more.len()
        invariant
            i <= more.len(),
            bytes@ == old(bytes)@ + more@.take(i as int),
        decreases more.len() - i,
    {
        bytes.push(more[i]);
        assert(bytes@ =~= old(bytes)@ + more@.take(i + 1));
        i += 1;
    }
    assert(more@.take(more.len() as int) =~= more@);
}

impl ResponseData {
    /// Takes the body of the upstream under the mask `filtering`, a comma-separated
    /// list of the names to keep; see [`body_after`]. Where the body cannot be read
    /// the response is left as it was.
    pub fn with_body(&mut self, body: &[u8], filtering: &str) -> (r: Result<(), CodecError>)
        ensures
            match body_after(old(self)@, body@, filtering@) {
                Ok(bytes) => r is Ok && final(self)@ == (ResponseView { body: bytes, ..old(self)@ }),
                Err(BodyFault::Json(why)) => r matches Err(CodecError::Json(e)) && e@ == why
                    && final(self)@ == old(self)@,
                Err(BodyFault::Cbor) => r matches Err(CodecError::Cbor)
                    && final(self)@ == old(self)@,
            },
    {
        let mask = split_filtering(filtering);
        assert(mask.deep_view().len() == mask.len());
        if self.status >= 300 || mask.len() == 0 {
            append_bytes(&mut self.body, body);
            return Ok(());
        }
        if contains(self.mime.as_str(), "application/json") {
            let members = match json_read_members(body) {
                Ok(members) => members,
                Err(why) => { return Err(CodecError::Json(why)); },
            };
            let kept = project_members(&members, &mask);
            self.body = json_write_object(&kept);
        } else if contains(self.mime.as_str(), "application/cbor") {
            let kept = match decode(body) {
                None => { return Err(CodecError::Cbor); },
                Some(Cbor::Dict(parts)) => match keep_entries(parts, &mask) {
                    Some(kept) => kept,
                    None => { return Err(CodecError::Cbor); },
                },
                Some(_) => Vec::new(),
            };
            assert(cbor_level(body@) matches Some(CborLevel::Dict(_)) || entries_of(
                entry_views(kept@),
            ) =~= Seq::<(CborItem, CborItem)>::empty());
            self.body = encode_dict(kept);
        } else {
            append_bytes(&mut self.body, body);
        }
        Ok(())
    }
}

/// Taking a body under the same mask twice gives what taking it once gives: where
/// the object that was written is read back with the members that were written,
/// the members that the mask keeps of it are those same members.
pub proof fn lemma_json_mask_idempotent(body: Seq<u8>, mask: Seq<Seq<char>>)
    requires
        json_members(body) is Ok,
        json_members(json_object_text(projected(json_members(body)->Ok_0, mask))) is Ok,
        json_members(json_object_text(projected(json_members(body)->Ok_0, mask)))->Ok_0
            == projected(json_members(body)->Ok_0, mask),
    ensures
        ({
            let once = json_object_text(projected(json_members(body)->Ok_0, mask));
            json_object_text(projected(json_members(once)->Ok_0, mask)) == once
        }),
{
    lemma_projected_twice(json_members(body)->Ok_0, mask);
}

/// The names of the kept members are names of the mask, and each value is the value
/// of the first member of that name.
proof fn lemma_projected_members(members: Seq<(Seq<char>, Seq<u8>)>, mask: Seq<Seq<char>>)
    ensures
        forall|i: int|
            0 <= i < projected(members, mask).len() ==> has_entry(
                mask,
                (#[trigger] projected(members, mask)[i]).0,
            ) && first_of(members, projected(members, mask)[i].0) == Some(
                projected(members, mask)[i].1,
            ),
        forall|i: int, j: int|
            0 <= i < j < projected(members, mask).len() ==> (#[trigger] projected(
                members,
                mask,
            )[i]).0 != (#[trigger] projected(members, mask)[j]).0,
        forall|k: int|
            0 <= k < mask.len() && first_of(members, #[trigger] mask[k]) is Some ==> has_member(
                projected(members, mask),
                mask[k],
            ),
    decreases mask.len(),
{
    let p = projected(members, mask);
    if mask.len() > 0 {
        let head = mask.drop_last();
        let before = projected(members, head);
        lemma_projected_members(members, head);
        assert forall|i: int| 0 <= i < p.len() implies has_entry(mask, (#[trigger] p[i]).0)
            && first_of(members, p[i].0) == Some(p[i].1) by {
            if i < before.len() {
                assert(p[i] == before[i]);
                let at = choose|at: int| 0 <= at < head.len() && head[at] == before[i].0;
                assert(mask[at] == before[i].0);
            } else {
                assert(mask[mask.len() - 1] == p[i].0);
            }
        }
        assert forall|k: int|
            0 <= k < mask.len() && first_of(members, #[trigger] mask[k]) is Some implies has_member(
            p,
            mask[k],
        ) by {
            if k < head.len() {
                assert(head[k] == mask[k]);
                let at = choose|at: int| 0 <= at < before.len() && before[at].0 == head[k];
                assert(p[at].0 == mask[k]);
            } else {
                if has_member(before, mask.last()) {
                    let at = choose|at: int| 0 <= at < before.len() && before[at].0 == mask.last();
                    assert(p[at].0 == mask[k]);
                } else {
                    assert(p[p.len() - 1].0 == mask[k]);
                }
            }
        }
    }
}

/// The value of the member of a name in a list without repeated names.
proof fn lemma_member_value_at(members: Seq<(Seq<char>, Seq<u8>)>, i: int)
    requires
        0 <= i < members.len(),
        forall|a: int, b: int|
            0 <= a < b < members.len() ==> (#[trigger] members[a]).0 != (#[trigger] members[b]).0,
    ensures
        first_of(members, members[i].0) == Some(members[i].1),
{
    assert forall|j: int| 0 <= j < i implies (#[trigger] members[j]).0 != members[i].0 by {}
    lemma_first_of_skip(members, members[i].0, i);
    assert(members.skip(i).first() == members[i]);
}

/// A name that no member has is the name of no value.
proof fn lemma_member_value_none(members: Seq<(Seq<char>, Seq<u8>)>, name: Seq<char>)
    requires
        !has_member(members, name),
    ensures
        first_of(members, name) is None,
{
    assert forall|j: int| 0 <= j < members.len() implies (#[trigger] members[j]).0 != name by {}
    lemma_first_of_skip(members, name, members.len() as int);
    assert(members.skip(members.len() as int).len() == 0);
}

/// Keeping under a mask what was kept under it changes nothing.
pub proof fn lemma_projected_twice(members: Seq<(Seq<char>, Seq<u8>)>, mask: Seq<Seq<char>>)
    ensures
        projected(projected(members, mask), mask) == projected(members, mask),
{
    lemma_projected_prefix(members, mask, mask);
}

/// Keeping under a mask what was kept under a longer mask gives what the mask keeps.
proof fn lemma_projected_prefix(
    members: Seq<(Seq<char>, Seq<u8>)>,
    full: Seq<Seq<char>>,
    mask: Seq<Seq<char>>,
)
    requires
        mask.is_prefix_of(full),
    ensures
        projected(projected(members, full), mask) == projected(members, mask),
    decreases mask.len(),
{
    let kept = projected(members, full);
    if mask.len() > 0 {
        let head = mask.drop_last();
        let name = mask.last();
        assert(head.is_prefix_of(full)) by {
            assert(head =~= full.subrange(0, head.len() as int));
        }
        lemma_projected_prefix(members, full, head);
        lemma_projected_members(members, full);
        assert(full[mask.len() - 1] == name);
        match first_of(members, name) {
            Some(value) => {
                let at = choose|at: int| 0 <= at < kept.len() && kept[at].0 == name;
                lemma_member_value_at(kept, at);
                assert(first_of(kept, name) == Some(kept[at].1));
                assert(kept[at].1 == value);
            },
            None => {
                if has_member(kept, name) {
                    let at = choose|at: int| 0 <= at < kept.len() && kept[at].0 == name;
                    assert(first_of(members, kept[at].0) == Some(kept[at].1));
                }
                lemma_member_value_none(kept, name);
            },
        }
    }
}

impl TryFrom<&[u8]> for ResponseData {
    type Error = CodecError;

    /// The response that `value` is the binary form of; see [`ResponseData::from_bytes`].
    fn try_from(value: &[u8]) -> (r: Result<Self, CodecError>)
        ensures
            match parsed_response(value@) {
                Some(view) => r matches Ok(rd) && rd@ == view,
                None => r matches Err(CodecError::Response),
            },
    {
        ResponseData::from_bytes(value)
    }
}

impl vstd::std_specs::convert::TryFromSpecImpl<&[u8]> for ResponseData {
    open spec fn obeys_try_from_spec() -> bool {
        false
    }

    open spec fn try_from_spec(v: &[u8]) -> Result<Self, CodecError> {
        arbitrary()
    }
}

/// The decimal digits of `n`.
pub open spec fn decimal(n: nat) -> Seq<char>
    decreases n,
{
    if n < 10 {
        seq![digit(n)]
    } else {
        decimal(n / 10).push(digit(n % 10))
    }
}

/// The character of a digit.
pub open spec fn digit(d: nat) -> char {
    (('0' as u8) + d) as char
}

/// The status with which a stored status is sent: itself where it has three
/// digits, else 200.
pub open spec fn sent_status(status: u16) -> u16 {
    if 100 <= status && status <= 999 {
        status
    } else {
        200
    }
}

/// Whether a stored header is sent as it is: `content-type` and `content-length`
/// are not, they are made anew.
pub open spec fn is_sent_header() -> spec_fn((Seq<char>, Seq<char>)) -> bool {
    |h: (Seq<char>, Seq<char>)| h.0 != "content-type"@ && h.0 != "content-length"@
}

/// The headers with which a response is sent: the stored ones in order, then
/// `content-type` with the MIME type and `content-length` with the length of the body.
pub open spec fn sent_headers(r: ResponseView) -> Seq<(Seq<char>, Seq<char>)> {
    r.headers.filter(is_sent_header()).push(("content-type"@, r.mime)).push(
        ("content-length"@, decimal(r.body.len())),
    )
}

/// The decimal digits of `n` as a text.
pub fn decimal_text(n: usize) -> (s: String)
    ensures
        s@ == decimal(n as nat),
{
    let mut digits: Vec<char> = Vec::new();
    let mut rest: usize = n;
    // the digits from the last to the first
    while rest >= 10
        invariant
            decimal(n as nat) == decimal(rest as nat) + digits@.reverse(),
        decreases rest,
    {
        let d: u8 = (rest % 10) as u8;
        let ghost before = digits@;
        digits.push((48u8 + d) as char);
        assert(digits@.reverse() =~= seq![digit((rest % 10) as nat)] + before.reverse());
        assert(decimal(rest as nat) == decimal((rest / 10) as nat).push(digit((rest % 10) as nat)));
        assert(decimal(rest as nat) + before.reverse() =~= decimal((rest / 10) as nat)
            + digits@.reverse());
        rest = rest / 10;
    }
    let ghost before = digits@;
    digits.push((48u8 + rest as u8) as char);
    assert(digits@.reverse() =~= seq![digit(rest as nat)] + before.reverse());
    assert(decimal(n as nat) =~= digits@.reverse());
    let mut out: Vec<char> = Vec::new();
    let mut i: usize = digits.len();
    while i > 0
        invariant
            i <= digits.len(),
            out@ == digits@.reverse().take(digits.len() - i),
        decreases i,
    {
        i -= 1;
        out.push(digits[i]);
        assert(out@ =~= digits@.reverse().take(digits.len() - i));
    }
    assert(digits@.reverse().take(digits.len() as int) =~= digits@.reverse());
    string_of(out.as_slice())
}

impl ResponseData {
    /// The status and the headers with which the response is sent; the body is
    /// sent as it is stored.
    pub fn into_response_parts(&self) -> (r: (u16, Vec<(String, String)>))
        ensures
            r.0 == sent_status(self.status),
            r.1.deep_view() == sent_headers(self@),
    {
        let status: u16 = if 100 <= self.status && self.status <= 999 {
            self.status
        } else {
            200
        };
        let ghost stored = self.headers.deep_view();
        let ghost keep = is_sent_header();
        let mut headers: Vec<(String, String)> = Vec::new();
        let mut i: usize = 0;
        assert(headers.deep_view() =~= stored.take(0).filter(keep)) by {
            assert(stored.take(0) =~= Seq::<(Seq<char>, Seq<char>)>::empty());
            stored.take(0).lemma_filter_len(keep);
        }
        while i < self.headers.len()
            invariant
                i <= self.headers.len(),
                stored == self.headers.deep_view(),
                keep == is_sent_header(),
                headers.deep_view() == stored.take(i as int).filter(keep),
            decreases self.headers.len() - i,
        {
            let h = &self.headers[i];
            proof {
                assert(stored[i as int] == (h.0@, h.1@));
                assert(stored.take(i + 1) =~= stored.take(i as int).push(stored[i as int]));
                stored.take(i as int).lemma_filter_push(stored[i as int], keep);
            }
            if !str_eq(h.0.as_str(), "content-type") && !str_eq(h.0.as_str(), "content-length") {
                let ghost before = headers.deep_view();
                headers.push((h.0.clone(), h.1.clone()));
                assert(headers.deep_view() =~= before.push((h.0@, h.1@)));
            }
            i += 1;
        }
        assert(stored.take(self.headers.len() as int) =~= stored);
        let ghost kept = headers.deep_view();
        headers.push(("content-type".to_string(), self.mime.clone()));
        let length = decimal_text(self.body.len());
        headers.push(("content-length".to_string(), length));
        assert(headers.deep_view() =~= kept.push(("content-type"@, self.mime@)).push(
            ("content-length"@, length@),
        ));
        (status, headers)
    }
}

} // verus!
