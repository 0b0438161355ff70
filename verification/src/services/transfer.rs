//! A server that moves to another node: what is packed, and what is unpacked.

use crate::services::responses::{refused, Code, Status};
use crate::text;
use vstd::prelude::*;

verus! {

/// What is moved.
#[derive(Clone, Copy, Debug, PartialEq, Eq, Structural)]
pub enum TransferPayload {
    ServerData,
    LocalBackups,
    /// A kind that is not known.
    Other,
}

/// What is packed to be moved.
#[derive(Clone, Copy, Debug, PartialEq, Eq, Structural)]
pub struct ExportPlan {
    /// The server is stopped first.
    pub stop: bool,
    /// Its backups are packed, if it has any; otherwise its data is.
    pub backups: bool,
}

/// Decides what is packed to be moved: the server's data, for which it is stopped, or its backups.
pub fn export_plan(payload: TransferPayload) -> (r: ExportPlan)
    ensures
        r.stop == (payload == TransferPayload::ServerData),
        r.backups == (payload == TransferPayload::LocalBackups),
{
    ExportPlan {
        stop: payload == TransferPayload::ServerData,
        backups: payload == TransferPayload::LocalBackups,
    }
}

/// What is said of an archive that comes.
pub struct ImportMetadata {
    pub server_id: String,
    /// How many bytes come; a negative number where that is not known.
    pub archive_size_bytes: i64,
    pub payload: TransferPayload,
}

/// A frame of an archive that comes.
pub enum ImportFrame {
    Metadata(ImportMetadata),
    /// So many bytes.
    Chunk(usize),
    /// Nothing.
    Empty,
}

/// An archive that comes.
pub struct Import {
    pub metadata: Option<ImportMetadata>,
    /// How many bytes came.
    pub total: i64,
}

/// What becomes of an archive that came.
#[derive(Clone, Copy, Debug, PartialEq, Eq, Structural)]
pub enum ImportStep {
    /// Nothing: it is empty.
    Nothing,
    /// It is unpacked among the server's backups.
    UnpackBackups,
    /// It is unpacked as the server's data.
    UnpackServer,
}

/// Why an archive that came is refused; none where it is not.
pub open spec fn import_refusal(metadata: ImportMetadata, total: i64) -> Option<Seq<char>> {
    if metadata.archive_size_bytes >= 0 && metadata.archive_size_bytes != total {
        Some(
            "Transfer size mismatch: expected "@ + text::signed_decimal(
                metadata.archive_size_bytes as int,
            ) + " bytes, received "@ + text::signed_decimal(total as int) + "."@,
        )
    } else if metadata.payload == TransferPayload::ServerData && total == 0 {
        Some("Server data transfer was empty."@)
    } else {
        None
    }
}

/// What becomes of an archive that came and is not refused.
pub open spec fn import_step(metadata: ImportMetadata, total: i64) -> ImportStep {
    if total == 0 {
        ImportStep::Nothing
    } else if metadata.payload == TransferPayload::LocalBackups {
        ImportStep::UnpackBackups
    } else {
        ImportStep::UnpackServer
    }
}

impl Import {
    /// Nothing came yet.
    pub fn new() -> (r: Import)
        ensures
            r.metadata is None,
            r.total == 0,
    {
        Import { metadata: None, total: 0 }
    }

    /// A frame came. The result says whether its bytes are written; what is said of the archive
    /// comes once and before the bytes.
    pub fn accept(&mut self, frame: ImportFrame) -> (r: Result<bool, Status>)
        requires
            old(self).total >= 0,
            frame is Chunk ==> old(self).total + frame->Chunk_0 <= i64::MAX,
        ensures
            final(self).total >= 0,
            match frame {
                ImportFrame::Metadata(m) => {
                    &&& final(self).total == old(self).total
                    &&& if old(self).metadata is Some {
                        refused(
                            r,
                            Code::InvalidArgument,
                            "Import metadata may only be sent once."@,
                        ) && final(self).metadata == old(self).metadata
                    } else {
                        r is Ok && !r->Ok_0 && final(self).metadata == Some(m)
                    }
                },
                ImportFrame::Chunk(length) => {
                    &&& final(self).metadata == old(self).metadata
                    &&& if old(self).metadata is None {
                        refused(
                            r,
                            Code::InvalidArgument,
                            "Metadata must be sent before chunk data."@,
                        ) && final(self).total == old(self).total
                    } else {
                        r is Ok && r->Ok_0 && final(self).total == old(self).total + length
                    }
                },
                ImportFrame::Empty => r is Ok && !r->Ok_0 && *final(self) == *old(self),
            },
    {
        match frame {
            ImportFrame::Metadata(m) => {
                if self.metadata.is_some() {
                    return Err(
                        Status::new(
                            Code::InvalidArgument,
                            "Import metadata may only be sent once.",
                        ),
                    );
                }
                self.metadata = Some(m);
                Ok(false)
            },
            ImportFrame::Chunk(length) => {
                if self.metadata.is_none() {
                    return Err(
                        Status::new(
                            Code::InvalidArgument,
                            "Metadata must be sent before chunk data.",
                        ),
                    );
                }
                self.total = self.total + length as i64;
                Ok(true)
            },
            ImportFrame::Empty => Ok(false),
        }
    }

    /// Everything came. What was said of the archive has to be so.
    pub fn finish(&self) -> (r: Result<ImportStep, Status>)
        ensures
            match self.metadata {
                None => refused(r, Code::InvalidArgument, "Import metadata is required."@),
                Some(m) => match import_refusal(m, self.total) {
                    Some(message) => refused(r, Code::DataLoss, message),
                    None => r is Ok && r->Ok_0 == import_step(m, self.total),
                },
            },
    {
        match &self.metadata {
            None => Err(Status::new(Code::InvalidArgument, "Import metadata is required.")),
            Some(m) => {
                if m.archive_size_bytes >= 0 && m.archive_size_bytes != self.total {
                    let expected = text::signed_decimal_string(m.archive_size_bytes);
                    let received = text::signed_decimal_string(self.total);
                    let message = text::concat5(
                        "Transfer size mismatch: expected ",
                        expected.as_str(),
                        " bytes, received ",
                        received.as_str(),
                        ".",
                    );
                    return Err(Status { code: Code::DataLoss, message });
                }
                if m.payload == TransferPayload::ServerData && self.total == 0 {
                    return Err(Status::new(Code::DataLoss, "Server data transfer was empty."));
                }
                if self.total == 0 {
                    Ok(ImportStep::Nothing)
                } else if m.payload == TransferPayload::LocalBackups {
                    Ok(ImportStep::UnpackBackups)
                } else {
                    Ok(ImportStep::UnpackServer)
                }
            },
        }
    }
}

/// Where an archive that comes is written.
pub fn import_file_name(unique: &str) -> (r: String)
    ensures
        r@ == "agapornis-transfer-"@ + unique@ + ".tar.gz"@,
{
    text::concat3("agapornis-transfer-", unique, ".tar.gz")
}

// ---------------------------------------------------------------------------------------------
// Laws.

/// Nothing is unpacked that is not as long as was said, and a server's data never is empty.
pub proof fn law_only_whole_archives_are_unpacked(metadata: ImportMetadata, total: i64)
    requires
        import_refusal(metadata, total) is None,
    ensures
        metadata.archive_size_bytes >= 0 ==> total == metadata.archive_size_bytes,
        metadata.payload == TransferPayload::ServerData ==> total != 0 && import_step(
            metadata,
            total,
        ) == ImportStep::UnpackServer,
{
    reveal_strlit("Server data transfer was empty.");
}

/// What came whole is unpacked to where it belongs: the backups among the backups, the data of a
/// server in its place; and an archive is taken exactly where it has the announced size and, for
/// the data of a server, is not empty.
pub proof fn law_transfers_go_where_they_belong(metadata: ImportMetadata, total: i64)
    requires
        total >= 0,
    ensures
        import_refusal(metadata, total) is None <==> (metadata.archive_size_bytes < 0
            || metadata.archive_size_bytes == total) && (metadata.payload
            == TransferPayload::ServerData ==> total > 0),
        total > 0 && metadata.payload == TransferPayload::LocalBackups ==> import_step(
            metadata,
            total,
        ) == ImportStep::UnpackBackups,
        total > 0 && metadata.payload != TransferPayload::LocalBackups ==> import_step(
            metadata,
            total,
        ) == ImportStep::UnpackServer,
        import_step(metadata, total) == ImportStep::Nothing <==> total == 0,
{
}

} // verus!
