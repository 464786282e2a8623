use vstd::prelude::*;

use crate::error::JanitorError;
use crate::text::{push_str, string_of};

verus! {

/// Whether commands are run or only reported.
#[derive(Clone, Copy, Debug, PartialEq, Eq, Structural)]
pub enum PretendStatus {
    Pretend,
    RunTheDamnThing,
}

/// Whether each command waits for the user's confirmation.
#[derive(Clone, Copy, Debug, PartialEq, Eq, Structural)]
pub enum InteractiveStatus {
    On,
    Off,
}

pub struct RunCmdConfig {
    pub pretend: PretendStatus,
    pub interactive: InteractiveStatus,
}

/// How many of the oldest kernels a cleanup removes so that `keep` remain:
/// none where there are no more than `keep`.
pub fn versions_to_delete(installed: usize, keep: usize) -> (r: usize)
    ensures
        r == if installed <= keep {
            0
        } else {
            installed - keep
        },
{
    if installed <= keep {
        0
    } else {
        installed - keep
    }
}

/// The character a user chose: the first of the line they typed.
pub fn prompt_for_char(input: &str) -> (r: Result<char, JanitorError>)
    ensures
        match r {
            Ok(c) => input@.len() > 0 && c == input@[0],
            Err(e) => input@.len() == 0 && e.kind@ == "unknown"@ && e.message@
                == "Could not parse input: "@ + input@,
        },
{
    if input.unicode_len() > 0 {
        Ok(input.get_char(0))
    } else {
        let mut msg: Vec<char> = Vec::new();
        push_str(&mut msg, "Could not parse input: ");
        push_str(&mut msg, input);
        let msg = string_of(msg.as_slice());
        Err(JanitorError::from_message(msg.as_str()))
    }
}

/// The number of kernels that can be offered for a choice by letter.
pub const CHOICE_LETTERS: usize = 26;

/// The letter under which the `i`-th kernel (oldest first) is offered:
/// `a` for the first, up to `z`.
pub fn choice_letter(i: usize) -> (r: Option<char>)
    ensures
        match r {
            Some(c) => i < CHOICE_LETTERS && c as int == 'a' as int + i,
            None => i >= CHOICE_LETTERS,
        },
{
    if i < CHOICE_LETTERS {
        let code: u8 = 97u8 + i as u8;
        Some(code as char)
    } else {
        None
    }
}

/// The index of the kernel a letter chooses among `count` kernels, if it
/// chooses one.
pub fn choice_index(choice: char, count: usize) -> (r: Option<usize>)
    ensures
        match r {
            Some(i) => i < count && i < CHOICE_LETTERS && choice as int == 'a' as int + i,
            None => !('a' <= choice <= 'z') || choice as int - 'a' as int >= count,
        },
{
    if 'a' <= choice && choice <= 'z' {
        let i = (choice as u32 - 'a' as u32) as usize;
        if i < count {
            return Some(i);
        }
    }
    None
}

} // verus!
