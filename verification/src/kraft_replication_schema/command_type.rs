//! The commands of the replication schema.

use vstd::prelude::*;

verus! {

/// What a log entry does with a key. Commands are ordered by their codes.
#[derive(Clone, Copy, Debug, PartialEq, Eq, PartialOrd, Ord, Hash, Structural)]
pub enum CommandType {
    NullVal,
    DELETE,
    PUT,
}

/// The code of [`CommandType::PUT`]: the letter `P`.
pub const PUT_CODE: u8 = 80;

/// The code of [`CommandType::DELETE`]: the letter `D`.
pub const DELETE_CODE: u8 = 68;

/// The code of [`CommandType::NullVal`].
pub const NULL_CODE: u8 = 0;

/// The command that a code stands for.
pub open spec fn command_of(code: u8) -> CommandType {
    if code == PUT_CODE {
        CommandType::PUT
    } else if code == DELETE_CODE {
        CommandType::DELETE
    } else {
        CommandType::NullVal
    }
}

/// The code of a command.
pub open spec fn code_of(command: CommandType) -> u8 {
    match command {
        CommandType::PUT => PUT_CODE,
        CommandType::DELETE => DELETE_CODE,
        CommandType::NullVal => NULL_CODE,
    }
}

/// The name of a command.
pub open spec fn name_of(command: CommandType) -> Seq<char> {
    match command {
        CommandType::PUT => "PUT"@,
        CommandType::DELETE => "DELETE"@,
        CommandType::NullVal => "NullVal"@,
    }
}

/// The command that a name stands for. A name of none stands for the null command.
pub open spec fn named_command(name: Seq<char>) -> CommandType {
    if name == "PUT"@ {
        CommandType::PUT
    } else if name == "DELETE"@ {
        CommandType::DELETE
    } else {
        CommandType::NullVal
    }
}

impl Default for CommandType {
    fn default() -> (command: Self)
        ensures
            command == CommandType::NullVal,
    {
        CommandType::NullVal
    }
}

impl From<u8> for CommandType {
    fn from(v: u8) -> (command: Self) {
        if v == PUT_CODE {
            CommandType::PUT
        } else if v == DELETE_CODE {
            CommandType::DELETE
        } else {
            CommandType::NullVal
        }
    }
}

impl vstd::std_specs::convert::FromSpecImpl<u8> for CommandType {
    open spec fn obeys_from_spec() -> bool {
        true
    }

    open spec fn from_spec(v: u8) -> CommandType {
        command_of(v)
    }
}

impl From<CommandType> for u8 {
    fn from(v: CommandType) -> (code: Self) {
        match v {
            CommandType::PUT => PUT_CODE,
            CommandType::DELETE => DELETE_CODE,
            CommandType::NullVal => NULL_CODE,
        }
    }
}

impl vstd::std_specs::convert::FromSpecImpl<CommandType> for u8 {
    open spec fn obeys_from_spec() -> bool {
        true
    }

    open spec fn from_spec(v: CommandType) -> u8 {
        code_of(v)
    }
}

impl CommandType {
    /// The command that a name stands for.
    pub fn from_name(name: &str) -> (command: Self)
        ensures
            command == named_command(name@),
    {
        let name = name.to_owned();
        if name == "PUT".to_owned() {
            CommandType::PUT
        } else if name == "DELETE".to_owned() {
            CommandType::DELETE
        } else {
            CommandType::NullVal
        }
    }

    /// The name of the command.
    pub fn to_string(&self) -> (name: String)
        ensures
            name@ == name_of(*self),
    {
        match self {
            CommandType::PUT => "PUT".to_owned(),
            CommandType::DELETE => "DELETE".to_owned(),
            CommandType::NullVal => "NullVal".to_owned(),
        }
    }
}

impl std::str::FromStr for CommandType {
    type Err = ();

    fn from_str(v: &str) -> (result: Result<Self, ()>)
        ensures
            result == Ok::<CommandType, ()>(named_command(v@)),
    {
        Ok(CommandType::from_name(v))
    }
}

/// A command can be told from its code, and from its name.
pub proof fn law_command_is_read_back(command: CommandType)
    ensures
        command_of(code_of(command)) == command,
        named_command(name_of(command)) == command,
{
    reveal_strlit("PUT");
    reveal_strlit("DELETE");
    reveal_strlit("NullVal");
    assert("PUT"@.len() == 3 && "DELETE"@.len() == 6 && "NullVal"@.len() == 7);
}

} // verus!
