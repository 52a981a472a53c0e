//! The wire messages: an event tag, an optional sender, and a payload whose
//! shape the tag decides.

use crate::assets::{is_safe_filename, is_valid_filename, AssetHashMap};
use base64::Engine;
use vstd::prelude::*;

verus! {

/// The tag of a bell notification.
pub open spec fn ring_bell_tag() -> Seq<char> {
    "ring_bell"@
}

/// The tag of a client's report of its asset digests.
pub open spec fn sync_hashes_tag() -> Seq<char> {
    "sync_hashes"@
}

/// The tag of an asset pushed to a client.
pub open spec fn file_transfer_tag() -> Seq<char> {
    "file_transfer"@
}

/// A client's report of the assets it holds.
#[derive(Debug)]
pub struct SyncRequest {
    pub hashes: AssetHashMap,
}

/// One asset pushed to a client: its name and its content in base64.
#[derive(Debug)]
pub struct FileTransfer {
    pub filename: String,
    pub content: String,
}

/// A message's payload, by shape.
#[derive(Debug)]
pub enum Payload {
    /// A bare string: the digest of the asset chosen for a bell.
    Hash(String),
    /// A report of asset digests.
    Sync(SyncRequest),
    /// An asset pushed to a client.
    Transfer(FileTransfer),
    /// Any other value.
    Other,
}

/// One protocol message.
#[derive(Debug)]
pub struct WsMessage {
    pub event: String,
    pub sender_id: Option<String>,
    pub data: Option<Payload>,
}

/// Why an asset could not be read or stored.
#[derive(Debug, Clone, Copy, PartialEq, Eq, Structural)]
pub enum AssetError {
    /// The name holds a path separator or a parent-directory sequence.
    InvalidFilename,
    /// The content is not valid base64.
    BadEncoding,
}

/// The standard base64 encoding of a byte sequence, with padding.
pub uninterp spec fn base64_of(data: Seq<u8>) -> Seq<char>;

/// The bytes that a text decodes to under standard base64, if it is valid.
pub uninterp spec fn base64_decoded(text: Seq<char>) -> Option<Seq<u8>>;

#[verifier::external_type_specification]
#[verifier::external_body]
pub struct ExDecodeError(base64::DecodeError);

/// Relies on base64's STANDARD engine `encode`, which panics only where the
/// encoded length overflows `usize`.
#[verifier::external_body]
fn base64_encode(data: &[u8]) -> (r: String)
    requires
        data@.len() <= usize::MAX / 2,
    ensures
        r@ == base64_of(data@),
{
    base64::engine::general_purpose::STANDARD.encode(data)
}

/// Relies on base64's STANDARD engine `decode`: the decoded bytes, or an error
/// for text that is not valid base64.
#[verifier::external_body]
fn base64_decode(text: &str) -> (r: Result<Vec<u8>, base64::DecodeError>)
    ensures
        match r {
            Ok(v) => base64_decoded(text@) == Some(v@),
            Err(_) => base64_decoded(text@) is None,
        },
{
    base64::engine::general_purpose::STANDARD.decode(text)
}

/// Whether two strings hold the same characters.
pub fn same_text(a: &str, b: &str) -> (r: bool)
    ensures
        r == (a@ == b@),
{
    a.to_owned() == b.to_owned()
}

/// A text without its leading and trailing white space.
pub uninterp spec fn trimmed(s: Seq<char>) -> Seq<char>;

/// Relies on str::trim: the text without leading and trailing white space,
/// which depends on the characters alone.
#[verifier::external_body]
fn trim_text(s: &str) -> (r: &str)
    ensures
        r@ == trimmed(s@),
{
    s.trim()
}

/// Whether a frame that is not a structured message is the bare legacy bell
/// literal, white space around it aside.
pub fn is_legacy_ring(raw: &str) -> (r: bool)
    ensures
        r == (trimmed(raw@) == ring_bell_tag()),
{
    same_text(trim_text(raw), "ring_bell")
}

impl WsMessage {
    /// A bell notification from `sender_id`, with no asset chosen.
    pub fn ring_bell(sender_id: Option<String>) -> (r: WsMessage)
        ensures
            r.event@ == ring_bell_tag(),
            r.sender_id == sender_id,
            r.data is None,
    {
        WsMessage { event: "ring_bell".to_owned(), sender_id, data: None }
    }

    /// A report of the sender's asset digests.
    pub fn sync_hashes(hashes: AssetHashMap) -> (r: WsMessage)
        ensures
            r.event@ == sync_hashes_tag(),
            r.sender_id is None,
            r.data == Some(Payload::Sync(SyncRequest { hashes })),
    {
        WsMessage {
            event: "sync_hashes".to_owned(),
            sender_id: None,
            data: Some(Payload::Sync(SyncRequest { hashes })),
        }
    }

    /// An asset pushed to a client, its content already in base64.
    pub fn file_transfer(filename: String, content: String) -> (r: WsMessage)
        ensures
            r.event@ == file_transfer_tag(),
            r.sender_id is None,
            r.data == Some(Payload::Transfer(FileTransfer { filename, content })),
    {
        WsMessage {
            event: "file_transfer".to_owned(),
            sender_id: None,
            data: Some(Payload::Transfer(FileTransfer { filename, content })),
        }
    }
}

/// The message that pushes the asset `filename`, of content `content`, to a
/// client; a name that may not be used as a storage key is refused.
pub fn encode_transfer(filename: String, content: &[u8]) -> (r: Result<WsMessage, AssetError>)
    requires
        content@.len() <= usize::MAX / 2,
    ensures
        r is Err <==> !is_safe_filename(filename@),
        r is Err ==> r == Err::<WsMessage, AssetError>(AssetError::InvalidFilename),
        r matches Ok(m) ==> m.event@ == file_transfer_tag() && m.sender_id is None && (
        m.data matches Some(Payload::Transfer(t)) && t.filename == filename && t.content@
            == base64_of(content@)),
{
    if !is_valid_filename(filename.as_str()) {
        return Err(AssetError::InvalidFilename);
    }
    let encoded = base64_encode(content);
    Ok(WsMessage::file_transfer(filename, encoded))
}

/// The bytes to store for a pushed asset; a name that may not be used as a
/// storage key, or content that is not base64, is refused.
pub fn decode_transfer(t: &FileTransfer) -> (r: Result<Vec<u8>, AssetError>)
    ensures
        !is_safe_filename(t.filename@) ==> r == Err::<Vec<u8>, AssetError>(
            AssetError::InvalidFilename,
        ),
        is_safe_filename(t.filename@) && base64_decoded(t.content@) is None ==> r == Err::<
            Vec<u8>,
            AssetError,
        >(AssetError::BadEncoding),
        is_safe_filename(t.filename@) && base64_decoded(t.content@) is Some ==> r is Ok && r->Ok_0@
            == base64_decoded(t.content@)->0,
{
    if !is_valid_filename(t.filename.as_str()) {
        return Err(AssetError::InvalidFilename);
    }
    match base64_decode(t.content.as_str()) {
        Ok(v) => Ok(v),
        Err(_) => Err(AssetError::BadEncoding),
    }
}

} // verus!
