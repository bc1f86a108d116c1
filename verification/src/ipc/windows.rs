//! Named pipe endpoint for the shared local daemon on Windows.

use vstd::prelude::*;
use vstd::string::*;

use crate::text::{chars_of, copy_text};

verus! {

/// How many pipe instances listen at the same time.
pub const POOL_INSTANCES: usize = 4;

/// The system's code for a pipe that exists and has no free instance.
pub const ERROR_PIPE_BUSY: i32 = 231;

/// The system's code for a pipe that does not exist.
pub const ERROR_FILE_NOT_FOUND: i32 = 2;

/// The system's code for a pipe that another daemon created.
pub const ERROR_ACCESS_DENIED: i32 = 5;

/// The named pipe of one endpoint identity.
pub fn pipe_name(id: &str) -> (name: String)
    ensures
        name@ == "\\\\.\\pipe\\semctl-"@ + id@,
{
    let mut name = copy_text("\\\\.\\pipe\\semctl-");
    name.push_str(id);
    name
}

/// The name of the daemon log file of one endpoint identity.
pub fn log_name(id: &str) -> (name: String)
    ensures
        name@ == "daemon-"@ + id@ + ".log"@,
{
    let mut name = copy_text("daemon-");
    name.push_str(id);
    name.push_str(".log");
    name
}

/// The security descriptor text that grants full access to one user and to
/// nobody else.
pub fn descriptor_text(sid: &str) -> (text: String)
    ensures
        text@ == "D:P(A;;GA;;;"@ + sid@ + ")"@,
{
    let mut text = copy_text("D:P(A;;GA;;;");
    text.push_str(sid);
    text.push_str(")");
    text
}

/// The UTF-16 units of one character.
pub open spec fn utf16_units(c: char) -> Seq<u16> {
    let code = c as u32;
    if code < 0x10000 {
        seq![code as u16]
    } else {
        seq![
            (0xD800 + (code - 0x10000) / 0x400) as u16,
            (0xDC00 + (code - 0x10000) % 0x400) as u16,
        ]
    }
}

/// The UTF-16 units of a text.
pub open spec fn utf16(s: Seq<char>) -> Seq<u16>
    decreases s.len(),
{
    if s.len() == 0 {
        seq![]
    } else {
        utf16(s.drop_last()) + utf16_units(s.last())
    }
}

/// A text as a null-terminated UTF-16 sequence.
pub fn wide(value: &str) -> (units: Vec<u16>)
    ensures
        units@ == utf16(value@).push(0u16),
{
    let chars = chars_of(value);
    let mut units: Vec<u16> = Vec::new();
    let mut i: usize = 0;
    assert(value@.take(0) =~= Seq::<char>::empty());
    while i < chars.len()
        invariant
            i <= chars@.len(),
            chars@ == value@,
            units@ == utf16(value@.take(i as int)),
        decreases chars@.len() - i,
    {
        let ghost before = units@;
        let code: u32 = chars[i] as u32;
        proof {
            vstd::utf8::char_is_scalar(chars@[i as int]);
            assert(value@.take(i + 1).drop_last() =~= value@.take(i as int));
            assert(value@.take(i + 1).last() == chars@[i as int]);
        }
        if code < 0x10000 {
            units.push(code as u16);
            assert(units@ =~= before + utf16_units(chars@[i as int]));
        } else {
            units.push((0xD800 + (code - 0x10000) / 0x400) as u16);
            units.push((0xDC00 + (code - 0x10000) % 0x400) as u16);
            assert(units@ =~= before + utf16_units(chars@[i as int]));
        }
        i = i + 1;
    }
    assert(value@.take(i as int) =~= value@);
    units.push(0);
    units
}

/// How many eight-byte words hold `needed` bytes; at least one.
pub fn buffer_words(needed: u32) -> (words: usize)
    ensures
        words >= 1,
        words * 8 >= needed,
        words > 1 ==> (words - 1) * 8 < needed,
{
    let whole: usize = (needed / 8) as usize;
    let words: usize = if needed % 8 == 0 {
        whole
    } else {
        whole + 1
    };
    if words == 0 {
        1
    } else {
        words
    }
}

/// How many instances are created to fill the pool: one further instance is
/// always out with a caller that awaits a connection.
pub fn refill_count(ready: usize) -> (count: usize)
    ensures
        count == if ready < POOL_INSTANCES - 1 {
            POOL_INSTANCES - 1 - ready
        } else {
            0
        },
{
    if ready < POOL_INSTANCES - 1 {
        POOL_INSTANCES - 1 - ready
    } else {
        0
    }
}

/// Whether a failure to open the pipe means that no free daemon instance exists
/// yet.
pub fn is_absent(code: Option<i32>) -> (absent: bool)
    ensures
        absent == (code == Some(ERROR_PIPE_BUSY) || code == Some(ERROR_FILE_NOT_FOUND)),
{
    match code {
        Some(c) => c == ERROR_PIPE_BUSY || c == ERROR_FILE_NOT_FOUND,
        None => false,
    }
}

/// Whether a failure to create the first instance means that another daemon
/// serves the endpoint.
pub fn lost_election(code: Option<i32>) -> (lost: bool)
    ensures
        lost == (code == Some(ERROR_ACCESS_DENIED)),
{
    match code {
        Some(c) => c == ERROR_ACCESS_DENIED,
        None => false,
    }
}

/// A text is written in units of sixteen bits: a character of the first plane as it
/// is, and any other as two surrogates that stand for it together.
pub proof fn law_characters_are_written_in_units(s: Seq<char>, c: char)
    ensures
        utf16(seq![]).len() == 0,
        ({
            let all = utf16(s.push(c));
            let n = utf16(s).len() as int;
            let code = c as u32;
            &&& utf16(s).is_prefix_of(all)
            &&& code < 65536 ==> all.len() == n + 1 && all[n] == code
            &&& code >= 65536 ==> {
                &&& all.len() == n + 2
                &&& 55296 <= all[n] <= 56319 && 56320 <= all[n + 1] <= 57343
                &&& 65536 + (all[n] - 55296) * 1024 + (all[n + 1] - 56320) == code
            }
        }),
{
    assert(s.push(c).drop_last() =~= s);
    let all = utf16(s.push(c));
    assert(all.take(utf16(s).len() as int) =~= utf16(s));
    assert(c as u32 <= 0x10FFFF);
}

} // verus!
