//! File transfer over one ordered byte stream: a whole file into a frame,
//! a whole stream back into a file, and what holds between the two.

use crate::cert::CertKeyPair;
use crate::digest::sha256;
use crate::ipv6_text::views;
use crate::error::{ErrorKind, TransferError};
use crate::frame::{frame_bytes, header_fault, header_of, is_safe_filename, lemma_header_round_trip};
use crate::frame::{has_header, header_end, parse_header, FileMetadata, Header};
use crate::receiver::{lemma_fault_persists, lemma_payload_grows, outcome_of, payload_seen};
use crate::receiver::{frame_end, payload_end, trailer_seen, Receiver, CHUNK_SIZE};
use crate::sender::Sender;
use rustls::pki_types::PrivateKeyDer;
use vstd::prelude::*;
use vstd::utf8::encode_utf8;

verus! {

/// A file as it came out of a stream.
#[derive(Debug)]
pub struct ReceivedFile {
    pub metadata: FileMetadata,
    pub content: Vec<u8>,
}

/// Frames `content` for the wire: header, payload, digest. The payload is
/// taken in chunks of 64 KiB under a running digest. An empty file is
/// refused.
pub fn send_file(content: &[u8], file_name: &str, user_id: &str) -> (out: Result<
    Vec<u8>,
    TransferError,
>)
    ensures
        match out {
            Ok(frame) => {
                &&& content@.len() > 0
                &&& header_of(user_id@, file_name@, content@.len() as u64).fits()
                &&& frame@ == frame_bytes(
                    header_of(user_id@, file_name@, content@.len() as u64),
                    content@,
                )
            },
            Err(e) => e == if content@.len() == 0 {
                TransferError::EmptyFile
            } else {
                TransferError::FieldTooLong
            } && (content@.len() == 0 || !header_of(
                user_id@,
                file_name@,
                content@.len() as u64,
            ).fits()),
        },
{
    let size: u64 = content.len() as u64;
    let (mut sender, mut frame) = match Sender::begin(user_id, file_name, size) {
        Ok(started) => started,
        Err(e) => {
            return Err(e);
        },
    };
    let ghost header = frame@;
    let mut pos: usize = 0;
    assert(frame@ =~= header + content@.subrange(0, 0));
    assert(sender.sent() =~= content@.subrange(0, 0));
    while pos < content.len()
        invariant
            pos <= content@.len(),
            frame@ == header + content@.subrange(0, pos as int),
            sender.sent() == content@.subrange(0, pos as int),
        decreases content@.len() - pos,
    {
        let end: usize = if content.len() - pos > CHUNK_SIZE {
            pos + CHUNK_SIZE
        } else {
            content.len()
        };
        let chunk = &content[pos..end];
        sender.push(chunk);
        frame.extend_from_slice(chunk);
        assert(frame@ =~= header + content@.subrange(0, end as int));
        assert(sender.sent() =~= content@.subrange(0, end as int));
        pos = end;
    }
    assert(content@.subrange(0, pos as int) =~= content@);
    let digest = sender.finish();
    frame.extend_from_slice(digest.as_slice());
    assert(frame@ =~= header + content@ + sha256(content@)@);
    Ok(frame)
}

/// Reads one frame from `stream`, which is everything that arrived before
/// the stream ended. The stream is taken in chunks of 64 KiB, each cut where
/// the announced payload size says. The file comes back exactly when the
/// stream is one sound frame whose digest is that of its payload.
pub fn receive_file(stream: &[u8]) -> (out: Result<ReceivedFile, TransferError>)
    ensures
        match outcome_of(stream@) {
            Ok(header) => out matches Ok(file) && file.metadata@ == header && file.content@
                == payload_seen(stream@),
            Err(e) => out matches Err(f) && f == e,
        },
{
    let mut receiver = Receiver::new();
    let mut content: Vec<u8> = Vec::new();
    let mut pos: usize = 0;
    assert(stream@.subrange(0, 0) =~= Seq::<u8>::empty());
    while pos < stream.len()
        invariant
            pos <= stream@.len(),
            receiver.wf(),
            receiver.active(),
            receiver.consumed() == stream@.subrange(0, pos as int),
            content@ == payload_seen(receiver.consumed()),
        decreases stream@.len() - pos,
    {
        let end: usize = if stream.len() - pos > CHUNK_SIZE {
            pos + CHUNK_SIZE
        } else {
            stream.len()
        };
        let ghost before = receiver.consumed();
        let ghost after = stream@.subrange(0, end as int);
        assert(before + stream@.subrange(pos as int, end as int) =~= after);
        match receiver.feed(&stream[pos..end], &mut content) {
            Ok(()) => {
                proof {
                    lemma_payload_collected(before, stream@.subrange(pos as int, end as int));
                }
                pos = end;
            },
            Err(e) => {
                proof {
                    assert(stream@.subrange(0, after.len() as int) =~= after);
                    lemma_fault_persists(after, stream@);
                    assert(outcome_of(stream@) == Err::<Header, TransferError>(e));
                }
                return Err(e);
            },
        }
    }
    assert(stream@.subrange(0, pos as int) =~= stream@);
    match receiver.finish() {
        Ok(metadata) => Ok(ReceivedFile { metadata, content }),
        Err(e) => Err(e),
    }
}

/// The payload of a stream is the payload of its start and then what the
/// rest adds to it.
proof fn lemma_payload_collected(before: Seq<u8>, chunk: Seq<u8>)
    ensures
        payload_seen(before) + payload_seen(before + chunk).skip(
            payload_seen(before).len() as int,
        ) == payload_seen(before + chunk),
{
    let after = before + chunk;
    assert(after.subrange(0, before.len() as int) =~= before);
    lemma_payload_grows(before, after);
    assert(payload_seen(before) + payload_seen(after).skip(payload_seen(before).len() as int)
        =~= payload_seen(after));
}

/// A transfer that succeeds has delivered as many payload bytes as the
/// header announced, and the digest that came with them is their SHA-256.
pub proof fn lemma_success_is_verified(stream: Seq<u8>)
    requires
        outcome_of(stream) is Ok,
    ensures
        payload_seen(stream).len() == outcome_of(stream)->Ok_0.payload_size,
        trailer_seen(stream) == sha256(payload_seen(stream))@,
        outcome_of(stream)->Ok_0.acceptable(),
{
}

/// Where a frame's parts lie in its stream.
proof fn lemma_frame_positions(header: Header, payload: Seq<u8>)
    requires
        header.fits(),
        header.payload_size == payload.len(),
    ensures
        has_header(frame_bytes(header, payload)),
        parse_header(frame_bytes(header, payload)) == Some(header),
        header.acceptable() <==> header_fault(frame_bytes(header, payload)) is None,
        header_end(frame_bytes(header, payload)) == header.len(),
        payload_end(frame_bytes(header, payload)) == header.len() + payload.len(),
        frame_bytes(header, payload).len() == header.len() + payload.len() + 32,
        frame_bytes(header, payload).subrange(header.len(), header.len() + payload.len())
            == payload,
        frame_bytes(header, payload).subrange(
            header.len() + payload.len(),
            header.len() + payload.len() + 32,
        ) == sha256(payload)@,
{
    lemma_three_parts(header.bytes(), payload, sha256(payload)@);
    lemma_header_round_trip(header, payload + sha256(payload)@);
}

/// Three texts in a row: where the second and the third lie.
proof fn lemma_three_parts(first: Seq<u8>, second: Seq<u8>, third: Seq<u8>)
    ensures
        first + second + third == first + (second + third),
        (first + second + third).len() == first.len() + second.len() + third.len(),
        (first + second + third).subrange(
            first.len() as int,
            (first.len() + second.len()) as int,
        ) == second,
        (first + second + third).subrange(
            (first.len() + second.len()) as int,
            (first.len() + second.len() + third.len()) as int,
        ) == third,
{
    let all = first + second + third;
    let a = first.len() as int;
    let b = a + second.len();
    let c = b + third.len();
    assert(all =~= first + (second + third));
    assert(all.subrange(a, b) =~= second);
    assert(all.subrange(b, c) =~= third);
}

/// How a frame lies in its stream: header, payload and digest, one behind
/// the other and nothing else.
proof fn lemma_frame_layout(header: Header, payload: Seq<u8>)
    requires
        header.fits(),
        header.payload_size == payload.len(),
    ensures
        has_header(frame_bytes(header, payload)),
        parse_header(frame_bytes(header, payload)) == Some(header),
        header.acceptable() <==> header_fault(frame_bytes(header, payload)) is None,
        payload_end(frame_bytes(header, payload)) == header.len() + payload.len(),
        frame_bytes(header, payload).len() == frame_end(frame_bytes(header, payload)),
        payload_seen(frame_bytes(header, payload)) == payload,
        trailer_seen(frame_bytes(header, payload)) == sha256(payload)@,
{
    lemma_frame_positions(header, payload);
}

/// What was framed is what is received: the stream that a sender writes for
/// a header and a payload gives back that header and that payload. The one
/// exception is a header that no receiver takes, for a text that is not
/// UTF-8 or a file name that is not safe: that is a protocol error.
pub proof fn lemma_round_trip(header: Header, payload: Seq<u8>)
    requires
        header.fits(),
        header.payload_size == payload.len(),
    ensures
        payload_seen(frame_bytes(header, payload)) == payload,
        header.acceptable() ==> outcome_of(frame_bytes(header, payload)) == Ok::<
            Header,
            TransferError,
        >(header),
        !header.acceptable() ==> {
            &&& outcome_of(frame_bytes(header, payload)) is Err
            &&& outcome_of(frame_bytes(header, payload))->Err_0.kind() == ErrorKind::StreamProtocol
        },
{
    lemma_frame_layout(header, payload);
}

/// What `send_file` writes for a file, `receive_file` reads as that file,
/// from that sender and under that name, provided the name is a safe one.
pub proof fn lemma_sent_file_is_received(user_id: Seq<char>, file_name: Seq<char>, content: Seq<u8>)
    requires
        content.len() <= u64::MAX,
        header_of(user_id, file_name, content.len() as u64).fits(),
        is_safe_filename(encode_utf8(file_name)),
    ensures
        outcome_of(
            frame_bytes(header_of(user_id, file_name, content.len() as u64), content),
        ) == Ok::<Header, TransferError>(header_of(user_id, file_name, content.len() as u64)),
        payload_seen(frame_bytes(header_of(user_id, file_name, content.len() as u64), content))
            == content,
{
    vstd::utf8::encode_utf8_valid_utf8(user_id);
    vstd::utf8::encode_utf8_valid_utf8(file_name);
    lemma_round_trip(header_of(user_id, file_name, content.len() as u64), content);
}

/// A file name that holds `/` or `..` is refused as a protocol error,
/// whatever else the stream holds.
pub proof fn lemma_unsafe_filename_refused(header: Header, rest: Seq<u8>)
    requires
        header.fits(),
        !is_safe_filename(header.filename),
    ensures
        outcome_of(header.bytes() + rest) is Err,
        outcome_of(header.bytes() + rest)->Err_0.kind() == ErrorKind::StreamProtocol,
{
    lemma_header_round_trip(header, rest);
}

/// Where a chunk is cut makes no difference: the payload handed on for two
/// chunks in turn is the payload handed on for both at once.
pub proof fn lemma_cut_anywhere(before: Seq<u8>, first: Seq<u8>, second: Seq<u8>)
    ensures
        payload_seen(before + first).skip(payload_seen(before).len() as int) + payload_seen(
            before + first + second,
        ).skip(payload_seen(before + first).len() as int) == payload_seen(
            before + first + second,
        ).skip(payload_seen(before).len() as int),
{
    let a = before;
    let b = before + first;
    let c = before + first + second;
    assert(b.subrange(0, a.len() as int) =~= a);
    assert(c.subrange(0, b.len() as int) =~= b);
    assert(c.subrange(0, a.len() as int) =~= a);
    lemma_payload_grows(a, b);
    lemma_payload_grows(b, c);
    lemma_payload_grows(a, c);
    let pa = payload_seen(a);
    let pb = payload_seen(b);
    let pc = payload_seen(c);
    assert(pb.skip(pa.len() as int) + pc.skip(pb.len() as int) =~= pc.skip(pa.len() as int)) by {
        assert forall|i: int| 0 <= i < pb.len() implies pb[i] == pc[i] by {
            assert(pc.subrange(0, pb.len() as int)[i] == pc[i]);
        }
    }
}

/// Milliseconds without traffic after which a connection is given up.
pub const MAX_IDLE_TIMEOUT_MS: u32 = 300_000;

/// Seconds between two keep-alive packets.
pub const KEEP_ALIVE_SECS: u64 = 10;

/// Bytes that one stream may have in flight: 1 MiB.
pub const STREAM_RECEIVE_WINDOW: u32 = 1_048_576;

/// Bytes that one connection may have in flight, each way: 10 MiB.
pub const CONNECTION_WINDOW: u64 = 10_485_760;

/// Application code with which the sender closes the connection.
pub const CLOSE_CODE: u32 = 0;

/// The parameters of the transport, the same on both sides.
#[derive(Clone, Copy, Debug, PartialEq, Eq, Structural)]
pub struct TransportSettings {
    pub max_idle_timeout_ms: u32,
    pub keep_alive_interval_secs: u64,
    pub stream_receive_window: u32,
    pub receive_window: u64,
    pub send_window: u64,
}

/// The parameters that both sides use.
pub open spec fn standard_transport() -> TransportSettings {
    TransportSettings {
        max_idle_timeout_ms: 300_000,
        keep_alive_interval_secs: 10,
        stream_receive_window: 1_048_576,
        receive_window: 10_485_760,
        send_window: 10_485_760,
    }
}

/// The parameters that both sides use.
pub fn transport_settings() -> (settings: TransportSettings)
    ensures
        settings == standard_transport(),
{
    TransportSettings {
        max_idle_timeout_ms: MAX_IDLE_TIMEOUT_MS,
        keep_alive_interval_secs: KEEP_ALIVE_SECS,
        stream_receive_window: STREAM_RECEIVE_WINDOW,
        receive_window: CONNECTION_WINDOW,
        send_window: CONNECTION_WINDOW,
    }
}

/// The reason with which the sender closes the connection.
pub fn close_reason() -> (reason: String)
    ensures
        reason@ == "transfer complete"@,
{
    "transfer complete".to_owned()
}

/// The encoding of a private key.
#[derive(Clone, Copy, Debug, PartialEq, Eq, Structural)]
pub enum KeyKind {
    Pkcs1,
    Sec1,
    Pkcs8,
}

/// A private key in DER.
#[derive(Clone, Debug)]
pub struct PrivateKey {
    pub kind: KeyKind,
    pub der: Vec<u8>,
}

/// A private key as plain values.
pub struct KeyView {
    pub kind: KeyKind,
    pub der: Seq<u8>,
}

impl View for PrivateKey {
    type V = KeyView;

    open spec fn view(&self) -> KeyView {
        KeyView { kind: self.kind, der: self.der@ }
    }
}

/// What the server side of the transport is set up with.
#[derive(Clone, Debug)]
pub struct ServerSetup {
    /// The certificates to present, each in DER.
    pub cert_chain: Vec<Vec<u8>>,
    pub private_key: PrivateKey,
    pub transport: TransportSettings,
}

/// What the client side of the transport is set up with.
#[derive(Clone, Debug)]
pub struct ClientSetup {
    /// Whether the server's certificate is verified. It is not: identity
    /// rests on the registry's nonce alone.
    pub verify_server_cert: bool,
    /// The name under which the server is addressed.
    pub server_name: String,
    pub transport: TransportSettings,
}

/// The certificates that `rustls_pemfile::certs` finds in a PEM text, each in
/// DER and in the order of the text; nothing where a section cannot be read.
pub uninterp spec fn pem_certificates(pem: Seq<u8>) -> Option<Seq<Seq<u8>>>;

/// The private key that `rustls_pemfile::private_key` finds in a PEM text:
/// the first one, if there is one; nothing where a section cannot be read.
pub uninterp spec fn pem_private_key(pem: Seq<u8>) -> Option<Option<KeyView>>;

/// `rustls_pemfile::certs`, collected: every certificate of the text, or
/// nothing at the first section that cannot be read.
#[verifier::external_body]
fn read_certificates(pem: &[u8]) -> (out: Option<Vec<Vec<u8>>>)
    ensures
        match out {
            Some(chain) => pem_certificates(pem@) == Some(views(chain@)),
            None => pem_certificates(pem@) is None,
        },
{
    let mut reader = pem;
    match rustls_pemfile::certs(&mut reader).collect::<Result<Vec<_>, _>>() {
        Ok(certs) => Some(certs.iter().map(|cert| cert.to_vec()).collect()),
        Err(_) => None,
    }
}

/// `rustls_pemfile::private_key`: the first private key of the text with
/// its encoding, `Some(None)` where the text holds none, and nothing where a
/// section cannot be read.
#[verifier::external_body]
fn read_private_key(pem: &[u8]) -> (out: Option<Option<PrivateKey>>)
    ensures
        match out {
            Some(Some(key)) => pem_private_key(pem@) == Some(Some(key@)),
            Some(None) => pem_private_key(pem@) == Some(None::<KeyView>),
            None => pem_private_key(pem@) is None,
        },
{
    let mut reader = pem;
    match rustls_pemfile::private_key(&mut reader) {
        Ok(Some(PrivateKeyDer::Pkcs1(k))) => Some(Some(PrivateKey { kind: KeyKind::Pkcs1, der: k.secret_pkcs1_der().to_vec() })),
        Ok(Some(PrivateKeyDer::Sec1(k))) => Some(Some(PrivateKey { kind: KeyKind::Sec1, der: k.secret_sec1_der().to_vec() })),
        Ok(Some(PrivateKeyDer::Pkcs8(k))) => Some(Some(PrivateKey { kind: KeyKind::Pkcs8, der: k.secret_pkcs8_der().to_vec() })),
        Ok(None) => Some(None),
        _ => None,
    }
}

/// The server's setup from what was read of its certificate and its key.
/// Both must have been read, and there must be a key.
pub fn server_setup(certs: Option<Vec<Vec<u8>>>, key: Option<Option<PrivateKey>>) -> (out: Result<
    ServerSetup,
    ErrorKind,
>)
    ensures
        match (certs, key) {
            (Some(chain), Some(Some(k))) => {
                &&& out matches Ok(setup)
                &&& setup.cert_chain == chain
                &&& setup.private_key == k
                &&& setup.transport == standard_transport()
            },
            _ => out matches Err(e) && e == ErrorKind::TlsSetup,
        },
{
    match (certs, key) {
        (Some(cert_chain), Some(Some(private_key))) => Ok(
            ServerSetup { cert_chain, private_key, transport: transport_settings() },
        ),
        _ => Err(ErrorKind::TlsSetup),
    }
}

/// The server's side: the certificate chain and the key from their PEM
/// texts, and the parameters of the transport.
pub fn create_server_config(cert_key: &CertKeyPair) -> (out: Result<ServerSetup, ErrorKind>)
    ensures
        match (
            pem_certificates(encode_utf8(cert_key.cert_pem@)),
            pem_private_key(encode_utf8(cert_key.key_pem@)),
        ) {
            (Some(chain), Some(Some(key))) => {
                &&& out matches Ok(setup)
                &&& views(setup.cert_chain@) == chain
                &&& setup.private_key@ == key
                &&& setup.transport == standard_transport()
            },
            _ => out matches Err(e) && e == ErrorKind::TlsSetup,
        },
{
    let certs = read_certificates(cert_key.cert_pem.as_str().as_bytes());
    let key = read_private_key(cert_key.key_pem.as_str().as_bytes());
    server_setup(certs, key)
}

/// The client's side: the server is addressed as `localhost`, whatever
/// certificate it shows is accepted, and the parameters of the transport
/// are those of the server.
pub fn create_client_config() -> (setup: ClientSetup)
    ensures
        !setup.verify_server_cert,
        setup.server_name@ == "localhost"@,
        setup.transport == standard_transport(),
{
    ClientSetup {
        verify_server_cert: false,
        server_name: "localhost".to_owned(),
        transport: transport_settings(),
    }
}

} // verus!
