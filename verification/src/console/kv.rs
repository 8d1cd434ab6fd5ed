//! Keys and values through the console: how requests are decoded, where they
//! go, when they are tried again, and how the answers are shown.

use crate::common::api::ApiError;
use crate::common::scan::{trim, trimmed};
use crate::common::text::{concat2, concat3, dec, decimal};
use crate::console::config::{about, copy_text, hosts_server, refuse, server_at, ConsoleConfig};
use crate::console::hex_text::{
    all_hex, hex_bytes, hex_decode, hex_encode, hex_error_text, hex_fault, hex_text,
    invalid_character_text, lossy_text, shown_as_is, text_lossy, HexError,
};
use vstd::prelude::*;
use vstd::string::*;
use vstd::utf8::*;

verus! {

/// A read. The hexadecimal form wins over the text.
#[derive(Debug)]
pub struct KvGetQuery {
    pub key: Option<String>,
    pub key_hex: Option<String>,
}

/// A write or a deletion. Hexadecimal forms win over texts.
#[derive(Debug)]
pub struct KvWriteBody {
    pub key: Option<String>,
    pub key_hex: Option<String>,
    /// Not needed for a deletion.
    pub value: Option<String>,
    pub value_hex: Option<String>,
    pub client_id: u64,
    pub seq: u64,
}

#[derive(Debug)]
pub struct KvGetResponse {
    pub found: bool,
    pub revision: u64,
    /// The value as text, where it was found.
    pub value_utf8: Option<String>,
    /// The value in hexadecimal, where it was found.
    pub value_hex: Option<String>,
}

#[derive(Clone, Copy, Debug, PartialEq, Eq, Structural)]
pub struct KvWriteResponse {
    pub ok: bool,
    pub revision: u64,
}

/// A scan. The hexadecimal form wins over the text; without both every key is
/// meant.
#[derive(Debug)]
pub struct KvScanQuery {
    pub prefix: Option<String>,
    pub prefix_hex: Option<String>,
    /// Number of keys at most, `0` for all.
    pub limit: u32,
}

#[derive(Debug)]
pub struct KvScanItemView {
    pub key_utf8: String,
    pub key_hex: String,
    pub value_utf8: String,
    pub value_hex: String,
}

#[derive(Debug)]
pub struct KvScanResponseView {
    pub items: Vec<KvScanItemView>,
    pub truncated: bool,
}

/// What came of a read.
#[derive(Debug)]
pub enum GetOutcome {
    NotFound,
    Found { value: Vec<u8>, revision: u64 },
}

/// What came of a scan.
#[derive(Debug)]
pub struct ScanOutcome {
    pub items: Vec<(Vec<u8>, Vec<u8>)>,
    pub truncated: bool,
}

/// What is wrong with a hexadecimal text, in words.
pub open spec fn fault_text(e: HexError) -> Seq<char> {
    match e {
        HexError::OddLength => "Odd number of digits"@,
        HexError::InvalidCharacter { c, index } => if shown_as_is(c) {
            "Invalid character '"@ + seq![c] + "' at position "@ + dec(index as nat)
        } else {
            invalid_character_text(c, index)
        },
    }
}

/// `r` is what the hexadecimal text `text` stands for, white space around it
/// left out, or tells what is wrong with it.
pub open spec fn hex_decoded(text: Seq<char>, r: Result<Vec<u8>, ApiError>) -> bool {
    let s = encode_utf8(trimmed(text));
    match r {
        Ok(bytes) => s.len() % 2 == 0 && all_hex(s) && bytes@ == hex_bytes(s),
        Err(e) => exists|f: HexError| #[trigger]
            hex_fault(s, f) && e.says(400, "invalid hex: "@ + fault_text(f)),
    }
}

/// The bytes that a hexadecimal text stands for.
pub fn decode_hex(s: &str) -> (r: Result<Vec<u8>, ApiError>)
    ensures
        hex_decoded(s@, r),
{
    match hex_decode(trim(s).as_bytes()) {
        Ok(bytes) => Ok(bytes),
        Err(e) => {
            let text: String = hex_error_text(e);
            proof {
                assert(hex_fault(encode_utf8(trimmed(s@)), e));
            }
            Err(ApiError { status: 400, error: concat2("invalid hex: ", text.as_str()) })
        },
    }
}

/// `r` are the bytes that a request gives in hexadecimal or as text, or tells
/// why there are none.
pub open spec fn bytes_decoded(
    text: Option<String>,
    hex: Option<String>,
    absent: Seq<char>,
    r: Result<Vec<u8>, ApiError>,
) -> bool {
    match (hex, text) {
        (Some(h), _) => hex_decoded(h@, r),
        (None, Some(s)) => r matches Ok(bytes) && bytes@ == encode_utf8(s@),
        (None, None) => r matches Err(e) && e.says(400, absent),
    }
}

/// Decode a key that is given as text or in hexadecimal.
pub fn decode_key(utf8: Option<String>, hex_enc: Option<String>) -> (r: Result<Vec<u8>, ApiError>)
    ensures
        bytes_decoded(utf8, hex_enc, "missing `key` or `key_hex`"@, r),
{
    if let Some(h) = hex_enc {
        return decode_hex(h.as_str());
    }
    if let Some(s) = utf8 {
        return Ok(s.as_str().as_bytes_vec());
    }
    Err(ApiError { status: 400, error: "missing `key` or `key_hex`".to_owned() })
}

/// Decode a value that is given as text or in hexadecimal.
pub fn decode_value(utf8: Option<String>, hex_enc: Option<String>) -> (r: Result<
    Vec<u8>,
    ApiError,
>)
    ensures
        bytes_decoded(utf8, hex_enc, "missing `value` or `value_hex`"@, r),
{
    if let Some(h) = hex_enc {
        return decode_hex(h.as_str());
    }
    if let Some(s) = utf8 {
        return Ok(s.as_str().as_bytes_vec());
    }
    Err(ApiError { status: 400, error: "missing `value` or `value_hex`".to_owned() })
}

/// Key and value of a write. The key is looked at first.
pub fn decode_put(body: KvWriteBody) -> (r: Result<(Vec<u8>, Vec<u8>), ApiError>)
    ensures
        match r {
            Ok((k, v)) => {
                &&& bytes_decoded(body.key, body.key_hex, "missing `key` or `key_hex`"@, Ok(k))
                &&& bytes_decoded(
                    body.value,
                    body.value_hex,
                    "missing `value` or `value_hex`"@,
                    Ok(v),
                )
            },
            Err(e) => {
                ||| bytes_decoded(body.key, body.key_hex, "missing `key` or `key_hex`"@, Err(e))
                ||| exists|k: Vec<u8>| #[trigger]
                    bytes_decoded(body.key, body.key_hex, "missing `key` or `key_hex`"@, Ok(k))
                        && bytes_decoded(
                        body.value,
                        body.value_hex,
                        "missing `value` or `value_hex`"@,
                        Err(e),
                    )
            },
        },
{
    let key: Vec<u8> = match decode_key(body.key, body.key_hex) {
        Ok(k) => k,
        Err(e) => {
            return Err(e);
        },
    };
    match decode_value(body.value, body.value_hex) {
        Ok(v) => Ok((key, v)),
        Err(e) => Err(e),
    }
}

/// The limit of a scan that names none.
pub fn default_scan_limit() -> (n: u32)
    ensures
        n == 100,
{
    100
}

/// The prefix of a scan.
pub fn decode_prefix(q: &KvScanQuery) -> (r: Result<Vec<u8>, ApiError>)
    ensures
        match (q.prefix_hex, q.prefix) {
            (Some(h), _) => hex_decoded(h@, r),
            (None, Some(s)) => r matches Ok(bytes) && bytes@ == encode_utf8(s@),
            (None, None) => r matches Ok(bytes) && bytes@ == Seq::<u8>::empty(),
        },
{
    match (&q.prefix_hex, &q.prefix) {
        (Some(h), _) => decode_hex(h.as_str()),
        (None, Some(s)) => Ok(s.as_str().as_bytes_vec()),
        (None, None) => Ok(Vec::new()),
    }
}

/// `text` shows `bytes`: it is the text that they spell if they are valid UTF-8.
pub open spec fn is_shown(text: Seq<char>, bytes: Seq<u8>) -> bool {
    &&& text == lossy_text(bytes)
    &&& valid_utf8(bytes) ==> text == decode_utf8(bytes)
}

/// The answer to a read.
pub fn get_response(outcome: GetOutcome) -> (r: KvGetResponse)
    ensures
        match outcome {
            GetOutcome::NotFound => !r.found && r.revision == 0 && r.value_utf8 is None
                && r.value_hex is None,
            GetOutcome::Found { value, revision } => {
                &&& r.found
                &&& r.revision == revision
                &&& r.value_utf8 matches Some(t) && is_shown(t@, value@)
                &&& r.value_hex matches Some(h) && h@ == hex_text(value@)
            },
        },
{
    match outcome {
        GetOutcome::NotFound => KvGetResponse {
            found: false,
            revision: 0,
            value_utf8: None,
            value_hex: None,
        },
        GetOutcome::Found { value, revision } => KvGetResponse {
            found: true,
            revision,
            value_utf8: Some(text_lossy(value.as_slice())),
            value_hex: Some(hex_encode(value.as_slice())),
        },
    }
}

/// The answer to a write that was done at `revision`.
pub fn write_response(revision: u64) -> (r: KvWriteResponse)
    ensures
        r == (KvWriteResponse { ok: true, revision }),
{
    KvWriteResponse { ok: true, revision }
}

/// The answer to a scan.
pub fn scan_response(outcome: &ScanOutcome) -> (r: KvScanResponseView)
    ensures
        r.truncated == outcome.truncated,
        r.items.len() == outcome.items.len(),
        forall|i: int|
            0 <= i < r.items.len() ==> ({
                let (k, v) = outcome.items[i];
                &&& is_shown((#[trigger] r.items[i]).key_utf8@, k@)
                &&& r.items[i].key_hex@ == hex_text(k@)
                &&& is_shown(r.items[i].value_utf8@, v@)
                &&& r.items[i].value_hex@ == hex_text(v@)
            }),
{
    let mut items: Vec<KvScanItemView> = Vec::new();
    let mut i: usize = 0;
    while i < outcome.items.len()
        invariant
            i <= outcome.items.len(),
            items.len() == i,
            forall|k: int|
                0 <= k < i ==> ({
                    let (key, v) = outcome.items[k];
                    &&& is_shown((#[trigger] items[k]).key_utf8@, key@)
                    &&& items[k].key_hex@ == hex_text(key@)
                    &&& is_shown(items[k].value_utf8@, v@)
                    &&& items[k].value_hex@ == hex_text(v@)
                }),
        decreases outcome.items.len() - i,
    {
        let item = &outcome.items[i];
        items.push(
            KvScanItemView {
                key_utf8: text_lossy(item.0.as_slice()),
                key_hex: hex_encode(item.0.as_slice()),
                value_utf8: text_lossy(item.1.as_slice()),
                value_hex: hex_encode(item.1.as_slice()),
            },
        );
        i = i + 1;
    }
    KvScanResponseView { items, truncated: outcome.truncated }
}

/// The endpoint of the group's leader, which is on the node `leader` as far as
/// is known.
pub fn resolve_kv_endpoint(cfg: &ConsoleConfig, leader: Option<&str>, sid: u64, gid: u64) -> (r:
    Result<String, ApiError>)
    ensures
        match (r, leader) {
            (Ok(url), Some(node)) => exists|i: int| #[trigger]
                server_at(cfg.servers@, node@, i) && cfg.servers@[i].grpc_url == Some(url),
            (Ok(_), None) => false,
            (Err(e), None) => e.says(
                404,
                "group "@ + dec(gid as nat) + " in store "@ + dec(sid as nat)
                    + " not found or has no replicas"@,
            ),
            (Err(e), Some(node)) => {
                &&& !hosts_server(cfg.servers@, node@) || exists|i: int| #[trigger]
                    server_at(cfg.servers@, node@, i) && cfg.servers@[i].grpc_url is None
                &&& e.says(502, about("leader node "@, node@, " has no gRPC endpoint configured"@))
            },
        },
{
    let node: &str = match leader {
        Some(n) => n,
        None => {
            let g: String = decimal(gid);
            let s: String = decimal(sid);
            let front: String = concat3("group ", g.as_str(), " in store ");
            return Err(
                ApiError {
                    status: 404,
                    error: concat3(front.as_str(), s.as_str(), " not found or has no replicas"),
                },
            );
        },
    };
    let url = match cfg.server_for_node(node) {
        Some(entry) => copy_text(&entry.grpc_url),
        None => None,
    };
    match url {
        Some(u) => Ok(u),
        None => Err(refuse(502, "leader node ", node, " has no gRPC endpoint configured")),
    }
}

/// What came of one attempt of a request at a leader.
#[derive(Debug)]
pub enum AttemptOutcome {
    Succeeded,
    /// The node does not lead; this is how the request fails for that reason.
    NotLeader(ApiError),
    /// The request failed otherwise.
    Failed(ApiError),
}

/// What to do after an attempt.
#[derive(Debug)]
pub enum AttemptStep {
    Answer,
    /// Look at the group's nodes anew, find the leader again, and try once more.
    RefreshAndRetry,
    Refuse(ApiError),
}

/// What to do after an attempt. Only a first attempt that met a node which does
/// not lead is followed by another one.
pub fn after_attempt(retried: bool, outcome: AttemptOutcome) -> (step: AttemptStep)
    ensures
        step == match outcome {
            AttemptOutcome::Succeeded => AttemptStep::Answer,
            AttemptOutcome::NotLeader(e) => if retried {
                AttemptStep::Refuse(e)
            } else {
                AttemptStep::RefreshAndRetry
            },
            AttemptOutcome::Failed(e) => AttemptStep::Refuse(e),
        },
{
    match outcome {
        AttemptOutcome::Succeeded => AttemptStep::Answer,
        AttemptOutcome::NotLeader(e) => if retried {
            AttemptStep::Refuse(e)
        } else {
            AttemptStep::RefreshAndRetry
        },
        AttemptOutcome::Failed(e) => AttemptStep::Refuse(e),
    }
}

/// A value that was found is shown in a form in which it can be written back:
/// its hexadecimal text decodes to it.
pub proof fn shown_value_can_be_written_back(value: Seq<u8>, r: Result<Vec<u8>, ApiError>)
    requires
        hex_decoded(hex_text(value), r),
    ensures
        r matches Ok(bytes) && bytes@ == value,
{
    crate::console::hex_text::hexadecimal_reads_back(value);
    let s = encode_utf8(trimmed(hex_text(value)));
    if r is Err {
        let f = choose|f: HexError| #[trigger]
            hex_fault(s, f) && (r->Err_0).says(400, "invalid hex: "@ + fault_text(f));
        assert(hex_fault(s, f));
    }
}

/// Bytes that a request gives both ways are those in hexadecimal; given as text
/// they are its UTF-8 form; given neither way the request is a bad one.
pub proof fn hexadecimal_wins_over_text(
    text: Option<String>,
    hex: Option<String>,
    absent: Seq<char>,
    value: Seq<u8>,
    r: Result<Vec<u8>, ApiError>,
)
    requires
        bytes_decoded(text, hex, absent, r),
    ensures
        hex matches Some(h) ==> (h@ == hex_text(value) ==> (r matches Ok(b) && b@ == value)),
        hex is None ==> (text matches Some(s) ==> (r matches Ok(b) && b@ == encode_utf8(s@))),
        hex is None && text is None ==> (r matches Err(e) && e.status == 400),
{
    if let Some(h) = hex {
        if h@ == hex_text(value) {
            shown_value_can_be_written_back(value, r);
        }
    }
}

} // verus!
