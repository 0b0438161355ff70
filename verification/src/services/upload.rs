//! Files that are sent, in frames: the name first, and then the bytes; and files that are read.

use crate::process;
use crate::services::responses::{refused, Code, Status};
use crate::text;
use vstd::prelude::*;

verus! {

/// The most bytes of a file that is sent.
pub const MAX_UPLOAD_BYTES: usize = 134_217_728;

/// A frame of a file that is sent.
pub enum UploadFrame {
    /// The server and the path that the file is for.
    Metadata(String, String),
    /// So many bytes.
    Chunk(usize),
    /// Nothing.
    Empty,
}

/// What a frame leads to.
pub enum UploadStep {
    /// A temporary file is opened.
    Open,
    /// The bytes are written to it.
    Write,
    /// Nothing.
    Skip,
}

/// A file that is being sent.
pub struct Upload {
    /// The server and the path that the file is for, once they are known.
    pub target: Option<(String, String)>,
    /// How many bytes came.
    pub total: usize,
}

/// How many bytes came, as far as they are counted.
pub open spec fn counted(total: usize, length: usize) -> usize {
    if total + length > usize::MAX {
        usize::MAX
    } else {
        (total + length) as usize
    }
}

impl Upload {
    /// Nothing came yet.
    pub fn new() -> (r: Upload)
        ensures
            r.target is None,
            r.total == 0,
    {
        Upload { target: None, total: 0 }
    }

    /// A frame came. The name comes once and before the bytes, and there are no more bytes than may
    /// be.
    pub fn accept(&mut self, frame: UploadFrame) -> (r: Result<UploadStep, Status>)
        ensures
            match frame {
                UploadFrame::Metadata(id, path) => {
                    &&& final(self).total == old(self).total
                    &&& if old(self).target is Some {
                        refused(r, Code::InvalidArgument, "metadata may only be sent once"@)
                            && final(self).target == old(self).target
                    } else {
                        r is Ok && r->Ok_0 is Open && final(self).target == Some((id, path))
                    }
                },
                UploadFrame::Chunk(length) => {
                    &&& final(self).target == old(self).target
                    &&& if old(self).target is None {
                        refused(
                            r,
                            Code::InvalidArgument,
                            "Metadata must be sent before chunk data."@,
                        ) && final(self).total == old(self).total
                    } else {
                        &&& final(self).total == counted(old(self).total, length)
                        &&& if final(self).total > MAX_UPLOAD_BYTES {
                            refused(r, Code::ResourceExhausted, "Uploaded file is too large."@)
                        } else {
                            r is Ok && r->Ok_0 is Write
                        }
                    }
                },
                UploadFrame::Empty => r is Ok && r->Ok_0 is Skip && *final(self) == *old(self),
            },
    {
        match frame {
            UploadFrame::Metadata(id, path) => {
                if self.target.is_some() {
                    return Err(Status::new(Code::InvalidArgument, "metadata may only be sent once"));
                }
                self.target = Some((id, path));
                Ok(UploadStep::Open)
            },
            UploadFrame::Chunk(length) => {
                if self.target.is_none() {
                    return Err(
                        Status::new(
                            Code::InvalidArgument,
                            "Metadata must be sent before chunk data.",
                        ),
                    );
                }
                self.total = self.total.saturating_add(length);
                if self.total > MAX_UPLOAD_BYTES {
                    return Err(Status::new(Code::ResourceExhausted, "Uploaded file is too large."));
                }
                Ok(UploadStep::Write)
            },
            UploadFrame::Empty => Ok(UploadStep::Skip),
        }
    }

    /// Everything came. The name has to be known.
    pub fn finish(self) -> (r: Result<(String, String), Status>)
        ensures
            match self.target {
                Some(target) => r is Ok && r->Ok_0 == target,
                None => refused(r, Code::InvalidArgument, "Upload metadata is required."@),
            },
    {
        match self.target {
            Some(target) => Ok(target),
            None => Err(Status::new(Code::InvalidArgument, "Upload metadata is required.")),
        }
    }
}

// ---------------------------------------------------------------------------------------------
// Laws.

/// While nothing is refused, what was counted is what came: the limit is on the whole file, however
/// it is cut into frames.
pub proof fn law_frames_do_not_matter(total: usize, first: usize, second: usize)
    requires
        first + second <= usize::MAX,
    ensures
        counted(counted(total, first), second) == counted(total, (first + second) as usize),
{
}

/// The most bytes of a file that is read as text.
pub const MAX_TEXT_BYTES: usize = 5_242_880;

/// The text of a file.
pub fn file_content(data: Vec<u8>) -> (r: Result<String, Status>)
    ensures
        r is Ok <==> vstd::utf8::valid_utf8(data@),
        r is Ok ==> r->Ok_0@ == vstd::utf8::decode_utf8(data@),
        r is Err ==> refused(r, Code::InvalidArgument, "File is not valid UTF-8"@),
{
    match process::utf8_text(data) {
        Some(content) => Ok(content),
        None => Err(Status::new(Code::InvalidArgument, "File is not valid UTF-8")),
    }
}

/// Accepts the end of a file that was read out of a container, given how the program that read it
/// ended.
pub fn download_ended(success: bool, code: Option<i32>) -> (r: Result<(), Status>)
    ensures
        r is Ok <==> success,
        r is Err ==> refused(
            r,
            Code::Internal,
            "Docker download stream exited with status "@ + text::signed_decimal(
                match code {
                    Some(c) => c as int,
                    None => -1int,
                },
            ),
        ),
{
    if success {
        return Ok(());
    }
    let code: i64 = match code {
        Some(c) => c as i64,
        None => -1,
    };
    let number = text::signed_decimal_string(code);
    let message = text::concat2("Docker download stream exited with status ", number.as_str());
    Err(Status::new(Code::Internal, message.as_str()))
}

} // verus!
