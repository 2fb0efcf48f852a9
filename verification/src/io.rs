//! The decisions of a buffered stream over the C library.
//!
//! Nothing here opens, reads or writes. Each function takes what a call
//! into the C library returned and says what that means for the caller, so
//! that the calls themselves can stay with whoever owns the stream.

use crate::types::Slice;
use vstd::prelude::*;
use vstd::std_specs::convert::FromSpecImpl;

verus! {

/// The size of the buffer a stream gets where none is asked for.
pub const FILE_BUFFER: usize = 1024;

/// How a stream is opened.
#[derive(Debug, Clone, Copy, PartialEq, Eq, Structural)]
pub enum FileMode {
    Read,
    Write,
    ReadWrite,
}

/// Why an operation on a stream failed.
#[derive(Debug, Clone, Copy, PartialEq, Eq, Structural)]
pub enum FileError {
    OpenFailed,
    SeekFailed,
    ReadFailed,
    WriteFailed,
    OutOfMemory,
}

/// Where an offset handed to `seek` counts from.
#[derive(Debug, Clone, Copy, PartialEq, Eq, Structural)]
pub enum FileWhence {
    Start,
    Current,
    End,
}

impl FileMode {
    /// The mode as the C library's `fopen` and `fdopen` read it: always
    /// binary, `r+` where both directions are wanted.
    pub fn as_str(&self) -> (text: &'static str)
        ensures
            *self == FileMode::Read ==> text@ == "rb"@,
            *self == FileMode::Write ==> text@ == "wb"@,
            *self == FileMode::ReadWrite ==> text@ == "r+b"@,
    {
        match self {
            FileMode::Read => "rb",
            FileMode::Write => "wb",
            FileMode::ReadWrite => "r+b",
        }
    }
}

/// `libc::SEEK_SET`, the `whence` of `fseek` that counts an offset from the
/// start of the stream. The constant is 0 on every platform of `libc`.
#[verifier::external_body]
fn seek_set() -> (code: i32)
    ensures
        code == 0,
{
    libc::SEEK_SET
}

/// `libc::SEEK_CUR`, the `whence` of `fseek` that counts an offset from the
/// current position. The constant is 1 on every platform of `libc`.
#[verifier::external_body]
fn seek_cur() -> (code: i32)
    ensures
        code == 1,
{
    libc::SEEK_CUR
}

/// `libc::SEEK_END`, the `whence` of `fseek` that counts an offset from the
/// end of the stream. The constant is 2 on every platform of `libc`.
#[verifier::external_body]
fn seek_end() -> (code: i32)
    ensures
        code == 2,
{
    libc::SEEK_END
}

impl From<FileWhence> for i32 {
    /// The `whence` argument of the C library's `fseek`.
    fn from(whence: FileWhence) -> (code: i32) {
        match whence {
            FileWhence::Start => seek_set(),
            FileWhence::Current => seek_cur(),
            FileWhence::End => seek_end(),
        }
    }
}

impl FromSpecImpl<FileWhence> for i32 {
    open spec fn obeys_from_spec() -> bool {
        true
    }

    open spec fn from_spec(whence: FileWhence) -> i32 {
        match whence {
            FileWhence::Start => 0i32,
            FileWhence::Current => 1i32,
            FileWhence::End => 2i32,
        }
    }
}

/// Where the opening of a stream stands, and what its owner has to do next.
#[derive(Debug, Clone, Copy, PartialEq, Eq, Structural)]
pub enum Opening {
    /// A zeroed buffer of this many bytes, aligned to 1, is to be asked of
    /// the memory source.
    NeedsBuffer(usize),
    /// The buffer is to be handed to the stream, for full buffering.
    NeedsInstall(Slice),
    /// The stream is open and owns the buffer.
    Ready(Slice),
    /// Opening failed with `error`. Where `close` is set the stream is to be
    /// closed, and where `free` holds a buffer it is to go back to the
    /// memory source.
    Failed { error: FileError, close: bool, free: Option<Slice> },
}

/// What a call made for an opening stream returned.
#[derive(Debug, Clone, Copy, PartialEq, Eq, Structural)]
pub enum Answer {
    /// The memory source answered with the block at this address, or with 0
    /// where it refused.
    Buffer(usize),
    /// `setvbuf` returned this.
    Installed(i32),
}

impl Opening {
    /// What follows `fopen` or `fdopen`: `handle` is the address of the
    /// stream they returned, or 0 where they failed. A stream that did not
    /// open fails with `OpenFailed` and leaves nothing to clean up; one that
    /// did needs its buffer of `buffer_size` bytes.
    pub fn start(handle: usize, buffer_size: usize) -> (opening: Opening)
        ensures
            handle == 0 ==> opening == (Opening::Failed {
                error: FileError::OpenFailed,
                close: false,
                free: None,
            }),
            handle != 0 ==> opening == Opening::NeedsBuffer(buffer_size),
    {
        if handle == 0 {
            return Opening::Failed { error: FileError::OpenFailed, close: false, free: None };
        }
        Opening::NeedsBuffer(buffer_size)
    }

    /// What the opening becomes when `answer` comes in.
    pub open spec fn next(self, answer: Answer) -> Opening {
        match (self, answer) {
            (Opening::NeedsBuffer(size), Answer::Buffer(addr)) => if addr == 0 {
                Opening::Failed { error: FileError::OutOfMemory, close: true, free: None }
            } else {
                Opening::NeedsInstall(Slice { ptr: addr, len: size })
            },
            (Opening::NeedsInstall(buffer), Answer::Installed(rc)) => if rc != 0 {
                Opening::Failed { error: FileError::OpenFailed, close: true, free: Some(buffer) }
            } else {
                Opening::Ready(buffer)
            },
            _ => self,
        }
    }

    /// Takes the opening one step further. A refused buffer fails it with
    /// `OutOfMemory`, and the stream is to be closed; a buffer that the
    /// stream does not take fails it with `OpenFailed`, and the stream is to
    /// be closed and the buffer freed. An answer that the opening did not
    /// wait for changes nothing.
    pub fn advance(self, answer: Answer) -> (opening: Opening)
        ensures
            opening == self.next(answer),
    {
        match (self, answer) {
            (Opening::NeedsBuffer(size), Answer::Buffer(addr)) => {
                if addr == 0 {
                    return Opening::Failed {
                        error: FileError::OutOfMemory,
                        close: true,
                        free: None,
                    };
                }
                Opening::NeedsInstall(Slice::new(addr, size))
            },
            (Opening::NeedsInstall(buffer), Answer::Installed(rc)) => {
                if rc != 0 {
                    return Opening::Failed {
                        error: FileError::OpenFailed,
                        close: true,
                        free: Some(buffer),
                    };
                }
                Opening::Ready(buffer)
            },
            (opening, _) => opening,
        }
    }
}

/// What `seek` returns where `fseek` returned `rc`.
pub fn seek_outcome(rc: i32) -> (outcome: Result<(), FileError>)
    ensures
        rc == 0 ==> outcome == Ok::<(), FileError>(()),
        rc != 0 ==> outcome == Err::<(), FileError>(FileError::SeekFailed),
{
    if rc != 0 {
        return Err(FileError::SeekFailed);
    }
    Ok(())
}

/// What `read` returns where `fread` moved `count` bytes and `ferror`
/// returns `error`: the count, unless nothing was moved and the stream is
/// in error.
pub fn read_outcome(count: usize, error: i32) -> (outcome: Result<usize, FileError>)
    ensures
        count == 0 && error != 0 ==> outcome == Err::<usize, FileError>(FileError::ReadFailed),
        !(count == 0 && error != 0) ==> outcome == Ok::<usize, FileError>(count),
{
    if count == 0 && error != 0 {
        return Err(FileError::ReadFailed);
    }
    Ok(count)
}

/// What `write` returns where `fwrite` moved `count` bytes and `ferror`
/// returns `error`: the count, unless nothing was moved and the stream is
/// in error.
pub fn write_outcome(count: usize, error: i32) -> (outcome: Result<usize, FileError>)
    ensures
        count == 0 && error != 0 ==> outcome == Err::<usize, FileError>(FileError::WriteFailed),
        !(count == 0 && error != 0) ==> outcome == Ok::<usize, FileError>(count),
{
    if count == 0 && error != 0 {
        return Err(FileError::WriteFailed);
    }
    Ok(count)
}

/// What `flush` returns where `fflush` returned `rc`.
pub fn flush_outcome(rc: i32) -> (outcome: Result<(), FileError>)
    ensures
        rc == 0 ==> outcome == Ok::<(), FileError>(()),
        rc != 0 ==> outcome == Err::<(), FileError>(FileError::WriteFailed),
{
    if rc != 0 {
        return Err(FileError::WriteFailed);
    }
    Ok(())
}

} // verus!
