//! The commands on the fields of hashes.

use crate::cmd::{extract_args, key_of, read_key, validate_command, validated, CommandError};
use crate::resp::array::RespArray;
use crate::resp::frame::{frame_of, RespFrame};
use crate::resp::model::Frame;
use vstd::prelude::*;

verus! {

/// The command that asks for the value of a field of a hash.
#[derive(Debug)]
pub struct HGet {
    pub key: String,
    pub field: String,
}

/// The command that gives a field of a hash a value.
#[derive(Debug)]
pub struct HSet {
    pub key: String,
    pub field: String,
    pub value: RespFrame,
}

/// The command that asks for all the fields of a hash.
#[derive(Debug)]
pub struct HGetAll {
    pub key: String,
}

/// The key and the field that the arguments of a command name: both must be
/// bulk strings before either is read as text.
pub open spec fn key_and_field_of(key: Frame, field: Frame) -> Result<
    (Seq<char>, Seq<char>),
    CommandError,
> {
    if key is BulkString && field is BulkString {
        match key_of(key) {
            Err(e) => Err(e),
            Ok(k) => match key_of(field) {
                Err(e) => Err(e),
                Ok(f) => Ok((k, f)),
            },
        }
    } else {
        Err(CommandError::InvalidArgument)
    }
}

/// The key and the field that an `hget` command names: the frames are the
/// name `hget` and two arguments.
pub open spec fn hget_of(frames: Seq<Frame>) -> Result<(Seq<char>, Seq<char>), CommandError> {
    match validated(frames, seq!["hget"], 2) {
        Err(e) => Err(e),
        Ok(_) => key_and_field_of(frames[1], frames[2]),
    }
}

/// The key, the field and the value that an `hset` command names: the
/// frames are the name `hset` and three arguments.
pub open spec fn hset_of(frames: Seq<Frame>) -> Result<
    (Seq<char>, Seq<char>, Frame),
    CommandError,
> {
    match validated(frames, seq!["hset"], 3) {
        Err(e) => Err(e),
        Ok(_) => match key_and_field_of(frames[1], frames[2]) {
            Err(e) => Err(e),
            Ok((k, f)) => Ok((k, f, frames[3])),
        },
    }
}

/// The key that an `hgetall` command names: the frames are the name
/// `hgetall` and one argument.
pub open spec fn hgetall_of(frames: Seq<Frame>) -> Result<Seq<char>, CommandError> {
    match validated(frames, seq!["hgetall"], 1) {
        Err(e) => Err(e),
        Ok(_) => key_of(frames[1]),
    }
}

/// Reads a key and a field out of two frames.
pub fn read_key_and_field(key: RespFrame, field: RespFrame) -> (r: Result<
    (String, String),
    CommandError,
>)
    ensures
        match key_and_field_of(frame_of(key), frame_of(field)) {
            Ok((k, f)) => r is Ok && r->Ok_0.0@ == k && r->Ok_0.1@ == f,
            Err(e) => r is Err && r->Err_0 == e,
        },
{
    let both = match (&key, &field) {
        (RespFrame::BulkString(_), RespFrame::BulkString(_)) => true,
        _ => false,
    };
    if !both {
        return Err(CommandError::InvalidArgument);
    }
    let k = match read_key(key) {
        Ok(k) => k,
        Err(e) => {
            return Err(e);
        },
    };
    match read_key(field) {
        Ok(f) => Ok((k, f)),
        Err(e) => Err(e),
    }
}

impl TryFrom<RespArray> for HGet {
    type Error = CommandError;

    fn try_from(value: RespArray) -> (r: Result<HGet, CommandError>)
        ensures
            match hget_of(value@) {
                Ok((key, field)) => r is Ok && r->Ok_0.key@ == key && r->Ok_0.field@ == field,
                Err(e) => r is Err && r->Err_0 == e,
            },
    {
        let names: [&'static str; 1] = ["hget"];
        assert(names@ =~= seq!["hget"]);
        match validate_command(&value, names.as_slice(), 2) {
            Err(e) => {
                return Err(e);
            },
            Ok(_) => {},
        }
        let ghost frames = value@;
        let mut args = match extract_args(value, 1) {
            Err(e) => {
                return Err(e);
            },
            Ok(args) => args,
        };
        let first = args.remove(0);
        let second = args.remove(0);
        assert(frame_of(first) == frames[1]);
        assert(frame_of(second) == frames[2]);
        match read_key_and_field(first, second) {
            Ok((key, field)) => Ok(HGet { key, field }),
            Err(e) => Err(e),
        }
    }
}

impl vstd::std_specs::convert::TryFromSpecImpl<RespArray> for HGet {
    open spec fn obeys_try_from_spec() -> bool {
        false
    }

    open spec fn try_from_spec(v: RespArray) -> Result<HGet, CommandError> {
        arbitrary()
    }
}

impl TryFrom<RespArray> for HGetAll {
    type Error = CommandError;

    fn try_from(value: RespArray) -> (r: Result<HGetAll, CommandError>)
        ensures
            match hgetall_of(value@) {
                Ok(key) => r is Ok && r->Ok_0.key@ == key,
                Err(e) => r is Err && r->Err_0 == e,
            },
    {
        let names: [&'static str; 1] = ["hgetall"];
        assert(names@ =~= seq!["hgetall"]);
        match validate_command(&value, names.as_slice(), 1) {
            Err(e) => {
                return Err(e);
            },
            Ok(_) => {},
        }
        let ghost frames = value@;
        let mut args = match extract_args(value, 1) {
            Err(e) => {
                return Err(e);
            },
            Ok(args) => args,
        };
        let first = args.remove(0);
        assert(frame_of(first) == frames[1]);
        match read_key(first) {
            Ok(key) => Ok(HGetAll { key }),
            Err(e) => Err(e),
        }
    }
}

impl vstd::std_specs::convert::TryFromSpecImpl<RespArray> for HGetAll {
    open spec fn obeys_try_from_spec() -> bool {
        false
    }

    open spec fn try_from_spec(v: RespArray) -> Result<HGetAll, CommandError> {
        arbitrary()
    }
}

impl TryFrom<RespArray> for HSet {
    type Error = CommandError;

    fn try_from(value: RespArray) -> (r: Result<HSet, CommandError>)
        ensures
            match hset_of(value@) {
                Ok((key, field, v)) => r is Ok && r->Ok_0.key@ == key && r->Ok_0.field@ == field
                    && frame_of(r->Ok_0.value) == v,
                Err(e) => r is Err && r->Err_0 == e,
            },
    {
        let names: [&'static str; 1] = ["hset"];
        assert(names@ =~= seq!["hset"]);
        match validate_command(&value, names.as_slice(), 3) {
            Err(e) => {
                return Err(e);
            },
            Ok(_) => {},
        }
        let ghost frames = value@;
        let mut args = match extract_args(value, 1) {
            Err(e) => {
                return Err(e);
            },
            Ok(args) => args,
        };
        let first = args.remove(0);
        let second = args.remove(0);
        let third = args.remove(0);
        assert(frame_of(first) == frames[1]);
        assert(frame_of(second) == frames[2]);
        assert(frame_of(third) == frames[3]);
        match read_key_and_field(first, second) {
            Ok((key, field)) => Ok(HSet { key, field, value: third }),
            Err(e) => Err(e),
        }
    }
}

impl vstd::std_specs::convert::TryFromSpecImpl<RespArray> for HSet {
    open spec fn obeys_try_from_spec() -> bool {
        false
    }

    open spec fn try_from_spec(v: RespArray) -> Result<HSet, CommandError> {
        arbitrary()
    }
}

} // verus!
