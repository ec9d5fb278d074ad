//! The kinds of failure the system distinguishes.

use vstd::prelude::*;

verus! {

/// Every fatal condition falls under exactly one of these kinds.
#[derive(Clone, Copy, Debug, PartialEq, Eq, Structural)]
pub enum ErrorKind {
    ConfigMissing,
    InvalidIdentifier,
    RegistryUnreachable,
    RegistryConflict,
    RegistryAuth,
    PeerNotFound,
    NoSuitableAddress,
    PunchTimeout,
    TlsSetup,
    QuicHandshake,
    StreamProtocol,
    IntegrityMismatch,
    SizeMismatch,
    IoError,
}

impl ErrorKind {
    /// The text that names this kind of failure to the user.
    pub open spec fn spec_message(self) -> Seq<char> {
        match self {
            ErrorKind::ConfigMissing => "Config file not found. Please run: rxx register <id>"@,
            ErrorKind::InvalidIdentifier => "invalid identifier"@,
            ErrorKind::RegistryUnreachable => "failed to contact the registry"@,
            ErrorKind::RegistryConflict => "identifier is already registered"@,
            ErrorKind::RegistryAuth => "the registry refused the nonce"@,
            ErrorKind::PeerNotFound => "peer not found on the registry"@,
            ErrorKind::NoSuitableAddress => "No suitable IPv6 address found"@,
            ErrorKind::PunchTimeout => "Failed to establish UDP channel after 3 attempts"@,
            ErrorKind::TlsSetup => "failed to set up TLS"@,
            ErrorKind::QuicHandshake => "failed to establish the QUIC connection"@,
            ErrorKind::StreamProtocol => "the stream does not hold a well-formed transfer"@,
            ErrorKind::IntegrityMismatch => "file integrity check failed"@,
            ErrorKind::SizeMismatch => "file size mismatch"@,
            ErrorKind::IoError => "input or output failed"@,
        }
    }

    /// A one-line description for the user. A missing configuration points
    /// to `register`.
    pub fn message(self) -> (text: String)
        ensures
            text@ == self.spec_message(),
    {
        match self {
            ErrorKind::ConfigMissing => "Config file not found. Please run: rxx register <id>".to_owned(),
            ErrorKind::InvalidIdentifier => "invalid identifier".to_owned(),
            ErrorKind::RegistryUnreachable => "failed to contact the registry".to_owned(),
            ErrorKind::RegistryConflict => "identifier is already registered".to_owned(),
            ErrorKind::RegistryAuth => "the registry refused the nonce".to_owned(),
            ErrorKind::PeerNotFound => "peer not found on the registry".to_owned(),
            ErrorKind::NoSuitableAddress => "No suitable IPv6 address found".to_owned(),
            ErrorKind::PunchTimeout => "Failed to establish UDP channel after 3 attempts".to_owned(),
            ErrorKind::TlsSetup => "failed to set up TLS".to_owned(),
            ErrorKind::QuicHandshake => "failed to establish the QUIC connection".to_owned(),
            ErrorKind::StreamProtocol => "the stream does not hold a well-formed transfer".to_owned(),
            ErrorKind::IntegrityMismatch => "file integrity check failed".to_owned(),
            ErrorKind::SizeMismatch => "file size mismatch".to_owned(),
            ErrorKind::IoError => "input or output failed".to_owned(),
        }
    }
}

/// What can go wrong while a file is framed, sent or received.
#[derive(Clone, Copy, Debug, PartialEq, Eq, Structural)]
pub enum TransferError {
    /// The file to send holds no bytes.
    EmptyFile,
    /// A sender identifier or file name is longer than a 32-bit length can say.
    FieldTooLong,
    /// The sender identifier on the wire is not UTF-8.
    SenderIdNotUtf8,
    /// The file name on the wire is not UTF-8.
    FilenameNotUtf8,
    /// The file name would lead out of the output directory.
    UnsafeFilename,
    /// Bytes arrived after the end of the digest.
    TrailingData,
    /// The stream ended inside the metadata header.
    TruncatedHeader,
    /// The stream ended before the announced payload was complete.
    TruncatedPayload,
    /// The stream ended before the 32-byte digest was complete.
    TruncatedTrailer,
    /// The digest on the wire is not the digest of the payload received.
    DigestMismatch,
}

impl TransferError {
    /// The kind under which this failure is reported.
    pub open spec fn spec_kind(self) -> ErrorKind {
        match self {
            TransferError::EmptyFile => ErrorKind::IoError,
            TransferError::TruncatedPayload => ErrorKind::SizeMismatch,
            TransferError::DigestMismatch => ErrorKind::IntegrityMismatch,
            _ => ErrorKind::StreamProtocol,
        }
    }

    /// The kind under which this failure is reported.
    #[verifier::when_used_as_spec(spec_kind)]
    pub fn kind(self) -> (kind: ErrorKind)
        ensures
            kind == self.spec_kind(),
    {
        match self {
            TransferError::EmptyFile => ErrorKind::IoError,
            TransferError::TruncatedPayload => ErrorKind::SizeMismatch,
            TransferError::DigestMismatch => ErrorKind::IntegrityMismatch,
            _ => ErrorKind::StreamProtocol,
        }
    }

    /// Whatever was written of the file is not verified data and must not
    /// stay where it could be taken for it. So it is after every failure on
    /// the receiving side.
    pub open spec fn spec_discards_output(self) -> bool {
        !(self is EmptyFile) && !(self is FieldTooLong)
    }

    /// Whether the output written so far has to be deleted.
    #[verifier::when_used_as_spec(spec_discards_output)]
    pub fn discards_output(self) -> (yes: bool)
        ensures
            yes == self.spec_discards_output(),
    {
        match self {
            TransferError::EmptyFile => false,
            TransferError::FieldTooLong => false,
            _ => true,
        }
    }

    /// The text of this failure's message.
    pub open spec fn spec_message(self) -> Seq<char> {
        match self {
            TransferError::EmptyFile => "cannot send empty file"@,
            TransferError::FieldTooLong => "sender id or file name too long"@,
            TransferError::SenderIdNotUtf8 => "invalid UTF-8 in sender id"@,
            TransferError::FilenameNotUtf8 => "invalid UTF-8 in file name"@,
            TransferError::UnsafeFilename => "file name leads out of the output directory"@,
            TransferError::TrailingData => "unexpected data after the digest"@,
            TransferError::TruncatedHeader => "stream ended inside the metadata"@,
            TransferError::TruncatedPayload => "file size mismatch"@,
            TransferError::TruncatedTrailer => "stream ended before the digest was complete"@,
            TransferError::DigestMismatch => "file integrity check failed: hash mismatch"@,
        }
    }

    /// A one-line description for the user.
    pub fn message(self) -> (text: String)
        ensures
            text@ == self.spec_message(),
    {
        match self {
            TransferError::EmptyFile => "cannot send empty file".to_owned(),
            TransferError::FieldTooLong => "sender id or file name too long".to_owned(),
            TransferError::SenderIdNotUtf8 => "invalid UTF-8 in sender id".to_owned(),
            TransferError::FilenameNotUtf8 => "invalid UTF-8 in file name".to_owned(),
            TransferError::UnsafeFilename => "file name leads out of the output directory".to_owned(),
            TransferError::TrailingData => "unexpected data after the digest".to_owned(),
            TransferError::TruncatedHeader => "stream ended inside the metadata".to_owned(),
            TransferError::TruncatedPayload => "file size mismatch".to_owned(),
            TransferError::TruncatedTrailer => "stream ended before the digest was complete".to_owned(),
            TransferError::DigestMismatch => "file integrity check failed: hash mismatch".to_owned(),
        }
    }
}

} // verus!
