//! Commands: what a decoded array of frames asks for.

pub mod hmap;
pub mod map;

use crate::cmd::hmap::{hget_of, hgetall_of, hset_of, HGet, HGetAll, HSet};
use crate::cmd::map::{get_of, set_of, Get, SetCommand};
use crate::resp::array::RespArray;
use crate::resp::error::RespError;
use crate::resp::frame::{frame_of, RespFrame};
use crate::resp::model::Frame;
use crate::resp::text::{is_lowered, lowered, string_from_utf8};
use vstd::prelude::*;
use vstd::string::*;
use vstd::utf8::{decode_utf8, valid_utf8};

verus! {

/// Why an array of frames is no command.
#[derive(Debug, Clone, Copy, PartialEq, Eq, Structural)]
pub enum CommandError {
    /// The name of the command is not the expected one, or is no bulk
    /// string.
    InvalidCommand,
    /// The number of arguments or the kind of an argument is not what the
    /// command takes.
    InvalidArgument,
    /// The frames could not be decoded.
    RespError(RespError),
    /// A key or a field is not valid UTF-8.
    Utf8Error,
}

impl From<RespError> for CommandError {
    fn from(e: RespError) -> (r: CommandError) {
        CommandError::RespError(e)
    }
}

impl vstd::std_specs::convert::FromSpecImpl<RespError> for CommandError {
    open spec fn obeys_from_spec() -> bool {
        true
    }

    open spec fn from_spec(e: RespError) -> CommandError {
        CommandError::RespError(e)
    }
}

/// The names of a command lead the frames from index `i` on: each is a bulk
/// string that, put in lower case, is the name.
pub open spec fn names_checked(frames: Seq<Frame>, names: Seq<&'static str>, i: int) -> Result<
    (),
    CommandError,
>
    decreases names.len() - i,
{
    if i < 0 || i >= names.len() {
        Ok(())
    } else {
        match frames[i] {
            Frame::BulkString(name) => if lowered(name) == names[i].spec_bytes() {
                names_checked(frames, names, i + 1)
            } else {
                Err(CommandError::InvalidCommand)
            },
            _ => Err(CommandError::InvalidCommand),
        }
    }
}

/// The frames are a command of the given names with `n_args` arguments: as
/// many frames as names and arguments together, and the names in front.
pub open spec fn validated(frames: Seq<Frame>, names: Seq<&'static str>, n_args: nat) -> Result<
    (),
    CommandError,
> {
    if frames.len() != n_args + names.len() {
        Err(CommandError::InvalidArgument)
    } else {
        names_checked(frames, names, 0)
    }
}

/// Checks that `value` is a command of the given names with `n_args`
/// arguments. The names are compared without regard to the case of letters.
pub fn validate_command(value: &RespArray, names: &[&'static str], n_args: usize) -> (r: Result<
    (),
    CommandError,
>)
    ensures
        r == validated(value@, names@, n_args as nat),
{
    if value.0.len() < names.len() || value.0.len() - names.len() != n_args {
        return Err(CommandError::InvalidArgument);
    }
    let mut i: usize = 0;
    while i < names.len()
        invariant
            i <= names.len() <= value.0@.len(),
            value@.len() == n_args + names@.len(),
            names_checked(value@, names@, 0) == names_checked(value@, names@, i as int),
        decreases names.len() - i,
    {
        assert(value@[i as int] == frame_of(value.0@[i as int]));
        match &value.0[i] {
            RespFrame::BulkString(name) => {
                if !is_lowered(name.0.as_slice(), names[i].as_bytes()) {
                    return Err(CommandError::InvalidCommand);
                }
            },
            _ => {
                return Err(CommandError::InvalidCommand);
            },
        }
        i += 1;
    }
    Ok(())
}

/// The frames of `value` from index `start` on; none where the array is
/// shorter.
pub fn extract_args(value: RespArray, start: usize) -> (r: Result<Vec<RespFrame>, CommandError>)
    ensures
        r is Ok,
        start <= value.0@.len() ==> r->Ok_0@ == value.0@.skip(start as int),
        start > value.0@.len() ==> r->Ok_0@ == Seq::<RespFrame>::empty(),
{
    let mut frames = value.0;
    if start > frames.len() {
        Ok(Vec::new())
    } else {
        Ok(frames.split_off(start))
    }
}

/// The text of a key or of a field: the frame must be a bulk string, and
/// its bytes valid UTF-8.
pub open spec fn key_of(f: Frame) -> Result<Seq<char>, CommandError> {
    match f {
        Frame::BulkString(b) => if valid_utf8(b) {
            Ok(decode_utf8(b))
        } else {
            Err(CommandError::Utf8Error)
        },
        _ => Err(CommandError::InvalidArgument),
    }
}

/// Whether the text `r` that was read is what the model gives.
pub open spec fn key_is(
    model: Result<Seq<char>, CommandError>,
    r: Result<String, CommandError>,
) -> bool {
    match model {
        Ok(k) => r is Ok && r->Ok_0@ == k,
        Err(e) => r is Err && r->Err_0 == e,
    }
}

/// Reads a key or a field out of a frame.
pub fn read_key(frame: RespFrame) -> (r: Result<String, CommandError>)
    ensures
        key_is(key_of(frame_of(frame)), r),
{
    match frame {
        RespFrame::BulkString(key) => match string_from_utf8(key.0) {
            Some(text) => Ok(text),
            None => Err(CommandError::Utf8Error),
        },
        _ => Err(CommandError::InvalidArgument),
    }
}

/// A command, whatever its kind.
#[derive(Debug)]
pub enum Command {
    /// Asks for the value of a key.
    Get(Get),
    /// Gives a key a value.
    SetCommand(SetCommand),
    /// Asks for the value of a field of a hash.
    HGet(HGet),
    /// Gives a field of a hash a value.
    HSet(HSet),
    /// Asks for all the fields of a hash.
    HGetAll(HGetAll),
}

/// The name that leads the frames, in lower case; none where the first
/// frame is no bulk string.
pub open spec fn command_name(frames: Seq<Frame>) -> Option<Seq<u8>> {
    if frames.len() > 0 && frames[0] is BulkString {
        Some(lowered(frames[0]->BulkString_0))
    } else {
        None
    }
}

/// Whether the command `r` that was read is what the frames ask for: the
/// name that leads them selects the kind, and the kind reads its arguments.
/// Frames without a known name in front are an invalid command.
pub open spec fn command_is(frames: Seq<Frame>, r: Result<Command, CommandError>) -> bool {
    let name = command_name(frames);
    if name == Some("get".spec_bytes()) {
        match get_of(frames) {
            Ok(key) => r is Ok && r->Ok_0 is Get && r->Ok_0->Get_0.key@ == key,
            Err(e) => r is Err && r->Err_0 == e,
        }
    } else if name == Some("set".spec_bytes()) {
        match set_of(frames) {
            Ok((key, v)) => r is Ok && r->Ok_0 is SetCommand && r->Ok_0->SetCommand_0.key@ == key
                && frame_of(r->Ok_0->SetCommand_0.value) == v,
            Err(e) => r is Err && r->Err_0 == e,
        }
    } else if name == Some("hget".spec_bytes()) {
        match hget_of(frames) {
            Ok((key, field)) => r is Ok && r->Ok_0 is HGet && r->Ok_0->HGet_0.key@ == key
                && r->Ok_0->HGet_0.field@ == field,
            Err(e) => r is Err && r->Err_0 == e,
        }
    } else if name == Some("hset".spec_bytes()) {
        match hset_of(frames) {
            Ok((key, field, v)) => r is Ok && r->Ok_0 is HSet && r->Ok_0->HSet_0.key@ == key
                && r->Ok_0->HSet_0.field@ == field && frame_of(r->Ok_0->HSet_0.value) == v,
            Err(e) => r is Err && r->Err_0 == e,
        }
    } else if name == Some("hgetall".spec_bytes()) {
        match hgetall_of(frames) {
            Ok(key) => r is Ok && r->Ok_0 is HGetAll && r->Ok_0->HGetAll_0.key@ == key,
            Err(e) => r is Err && r->Err_0 == e,
        }
    } else {
        r is Err && r->Err_0 == CommandError::InvalidCommand
    }
}

/// Whether the first frame of `value` is a bulk string that, put in lower
/// case, is `name`.
fn is_named(value: &RespArray, name: &str) -> (r: bool)
    ensures
        r == (command_name(value@) == Some(name.spec_bytes())),
{
    if value.0.len() == 0 {
        return false;
    }
    assert(value@[0] == frame_of(value.0@[0]));
    match &value.0[0] {
        RespFrame::BulkString(first) => is_lowered(first.0.as_slice(), name.as_bytes()),
        _ => false,
    }
}

impl TryFrom<RespArray> for Command {
    type Error = CommandError;

    fn try_from(value: RespArray) -> (r: Result<Command, CommandError>)
        ensures
            command_is(value@, r),
    {
        if is_named(&value, "get") {
            match Get::try_from(value) {
                Ok(c) => Ok(Command::Get(c)),
                Err(e) => Err(e),
            }
        } else if is_named(&value, "set") {
            match SetCommand::try_from(value) {
                Ok(c) => Ok(Command::SetCommand(c)),
                Err(e) => Err(e),
            }
        } else if is_named(&value, "hget") {
            match HGet::try_from(value) {
                Ok(c) => Ok(Command::HGet(c)),
                Err(e) => Err(e),
            }
        } else if is_named(&value, "hset") {
            match HSet::try_from(value) {
                Ok(c) => Ok(Command::HSet(c)),
                Err(e) => Err(e),
            }
        } else if is_named(&value, "hgetall") {
            match HGetAll::try_from(value) {
                Ok(c) => Ok(Command::HGetAll(c)),
                Err(e) => Err(e),
            }
        } else {
            Err(CommandError::InvalidCommand)
        }
    }
}

impl vstd::std_specs::convert::TryFromSpecImpl<RespArray> for Command {
    open spec fn obeys_try_from_spec() -> bool {
        false
    }

    open spec fn try_from_spec(v: RespArray) -> Result<Command, CommandError> {
        arbitrary()
    }
}

} // verus!
