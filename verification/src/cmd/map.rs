//! The commands on plain keys.

use crate::cmd::{extract_args, key_of, read_key, validate_command, validated, CommandError};
use crate::resp::array::RespArray;
use crate::resp::frame::{frame_of, RespFrame};
use crate::resp::model::Frame;
use vstd::prelude::*;

verus! {

/// The command that asks for the value of a key.
#[derive(Debug)]
pub struct Get {
    pub key: String,
}

/// The command that gives a key a value.
#[derive(Debug)]
pub struct SetCommand {
    pub key: String,
    pub value: RespFrame,
}

/// The key that a `get` command names: the frames are the name `get` and
/// one argument, the key.
pub open spec fn get_of(frames: Seq<Frame>) -> Result<Seq<char>, CommandError> {
    match validated(frames, seq!["get"], 1) {
        Err(e) => Err(e),
        Ok(_) => key_of(frames[1]),
    }
}

/// The key and the value that a `set` command names: the frames are the
/// name `set` and two arguments, the key and the value.
pub open spec fn set_of(frames: Seq<Frame>) -> Result<(Seq<char>, Frame), CommandError> {
    match validated(frames, seq!["set"], 2) {
        Err(e) => Err(e),
        Ok(_) => match key_of(frames[1]) {
            Err(e) => Err(e),
            Ok(key) => Ok((key, frames[2])),
        },
    }
}

impl TryFrom<RespArray> for Get {
    type Error = CommandError;

    fn try_from(value: RespArray) -> (r: Result<Get, CommandError>)
        ensures
            match get_of(value@) {
                Ok(key) => r is Ok && r->Ok_0.key@ == key,
                Err(e) => r is Err && r->Err_0 == e,
            },
    {
        let names: [&'static str; 1] = ["get"];
        assert(names@ =~= seq!["get"]);
        match validate_command(&value, names.as_slice(), 1) {
            Err(e) => {
                return Err(e);
            },
            Ok(_) => {},
        }
        let ghost frames = value@;
        let mut args = match extract_args(value, 1) {
            Err(e) => {
                return Err(e);
            },
            Ok(args) => args,
        };
        let first = args.remove(0);
        assert(frame_of(first) == frames[1]);
        match read_key(first) {
            Ok(key) => Ok(Get { key }),
            Err(e) => Err(e),
        }
    }
}

impl vstd::std_specs::convert::TryFromSpecImpl<RespArray> for Get {
    open spec fn obeys_try_from_spec() -> bool {
        false
    }

    open spec fn try_from_spec(v: RespArray) -> Result<Get, CommandError> {
        arbitrary()
    }
}

impl TryFrom<RespArray> for SetCommand {
    type Error = CommandError;

    fn try_from(value: RespArray) -> (r: Result<SetCommand, CommandError>)
        ensures
            match set_of(value@) {
                Ok((key, v)) => r is Ok && r->Ok_0.key@ == key && frame_of(r->Ok_0.value) == v,
                Err(e) => r is Err && r->Err_0 == e,
            },
    {
        let names: [&'static str; 1] = ["set"];
        assert(names@ =~= seq!["set"]);
        match validate_command(&value, names.as_slice(), 2) {
            Err(e) => {
                return Err(e);
            },
            Ok(_) => {},
        }
        let ghost frames = value@;
        let mut args = match extract_args(value, 1) {
            Err(e) => {
                return Err(e);
            },
            Ok(args) => args,
        };
        let first = args.remove(0);
        let second = args.remove(0);
        assert(frame_of(first) == frames[1]);
        assert(frame_of(second) == frames[2]);
        match read_key(first) {
            Ok(key) => Ok(SetCommand { key, value: second }),
            Err(e) => Err(e),
        }
    }
}

impl vstd::std_specs::convert::TryFromSpecImpl<RespArray> for SetCommand {
    open spec fn obeys_try_from_spec() -> bool {
        false
    }

    open spec fn try_from_spec(v: RespArray) -> Result<SetCommand, CommandError> {
        arbitrary()
    }
}

} // verus!
