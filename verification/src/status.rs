//! How a job ended, and what is made of it. A wait status is read as Linux, macOS and the BSDs lay
//! it out.
use crate::dir::Place;
use crate::numeral::{law_numeral_is_positional, numeral, push_numeral, writes};
use vstd::prelude::*;
use vstd::string::*;

verus! {

/// The one wait status that these systems read differently: to FreeBSD it is that of a process that
/// was continued, to the others that of one that a signal ended.
pub const CONTINUED: i32 = 0x13;

/// `libc::WIFEXITED`: a process ended by itself where the low seven bits of its wait status are
/// zero.
#[verifier::external_body]
fn ended_by_itself(status: i32) -> (r: bool)
    ensures
        r == (status as int % 128 == 0),
{
    libc::WIFEXITED(status)
}

/// `libc::WEXITSTATUS`: the exit status is the second byte of the wait status.
#[verifier::external_body]
fn exit_byte(status: i32) -> (r: i32)
    ensures
        r == (status as int / 256) % 256,
{
    libc::WEXITSTATUS(status)
}

/// `libc::WIFSIGNALED`: a signal ended the process where the low seven bits of its wait status
/// are neither all zero nor all one. Nothing is said of the status [`CONTINUED`].
#[verifier::external_body]
fn ended_by_signal(status: i32) -> (r: bool)
    ensures
        status != CONTINUED ==> r == (0 < status as int % 128 < 127),
{
    libc::WIFSIGNALED(status)
}

/// `libc::WTERMSIG`: the signal is the low seven bits of the wait status.
#[verifier::external_body]
fn signal_number(status: i32) -> (r: i32)
    ensures
        r == status as int % 128,
{
    libc::WTERMSIG(status)
}

/// The exit code of a job whose process ended with the wait status `status`: its exit status; 128
/// and the number of the signal that ended it; or 255 where it ended in neither way.
pub open spec fn code_of(status: int) -> int {
    if status % 128 == 0 {
        (status / 256) % 256
    } else if status % 128 < 127 {
        128 + status % 128
    } else {
        255
    }
}

/// Whether `code` is the exit code of a job whose process ended with the wait status `status`. Of
/// [`CONTINUED`] there are two: which it is depends on the system.
pub open spec fn is_code_of(status: int, code: int) -> bool {
    code == code_of(status) || (status == CONTINUED && code == 255)
}

/// The exit code of a job whose process ended with the wait status `status`.
pub fn exit_code(status: i32) -> (r: u8)
    ensures
        is_code_of(status as int, r as int),
        status as int % 128 == 0 ==> r == (status as int / 256) % 256,
        0 < status as int % 128 < 127 && status != CONTINUED ==> r == 128 + status as int % 128,
        status as int % 128 == 127 ==> r == 255,
        status == CONTINUED ==> r == 147 || r == 255,
{
    if ended_by_itself(status) {
        exit_byte(status) as u8
    } else if ended_by_signal(status) {
        (128 + signal_number(status)) as u8
    } else {
        255
    }
}

/// The line at the end of a job file, with two empty lines in front.
pub open spec fn trailer_text(code: u8) -> Seq<char> {
    "\n\n+ exit="@ + numeral(code as nat, 10) + seq!['\n']
}

/// The line at the end of a job file, `+ exit=N`, with two empty lines in front.
pub fn trailer(code: u8) -> (r: String)
    ensures
        r@ == trailer_text(code),
        r@ == "\n\n+ exit="@ + numeral(code as nat, 10) + seq!['\n'],
{
    let mut out = "\n\n+ exit=".to_string();
    push_numeral(&mut out, code as u64, 10);
    out.push('\n');
    assert(out@ =~= trailer_text(code));
    out
}

/// Where a job goes that ended with the exit code `code`.
pub open spec fn destination_of(code: u8) -> Place {
    if code == 0 {
        Place::Done
    } else {
        Place::Fail
    }
}

/// Where a job goes that ended with the exit code `code`.
pub fn destination(code: u8) -> (r: Place)
    ensures
        r == destination_of(code),
        code == 0 ==> r == Place::Done,
        code != 0 ==> r == Place::Fail,
{
    if code == 0 {
        Place::Done
    } else {
        Place::Fail
    }
}

/// A job counts as done well only where its process ended by itself with exit status 0. One that
/// a signal ended has a code above 128, from which the signal can be told.
pub proof fn law_exit_code(status: int, code: int)
    requires
        is_code_of(status, code),
    ensures
        0 <= code <= 255,
        code == 0 <==> status % 128 == 0 && (status / 256) % 256 == 0,
        0 < status % 128 < 127 ==> code > 128,
        0 < status % 128 < 127 && status != CONTINUED ==> code - 128 == status % 128,
        destination_of(code as u8) == Place::Done <==> status % 128 == 0 && (status / 256) % 256
            == 0,
{
}

/// How a wait status becomes an exit code: an exit status stays as it is, a signal is counted from 128
/// on, and what is neither is 255. A code of 0 is success, and any other is failure.
pub proof fn law_exit_codes(status: int, code: int)
    requires
        is_code_of(status, code),
    ensures
        status % 128 == 0 ==> code == (status / 256) % 256,
        0 < status % 128 < 127 && status != 19 ==> code == 128 + status % 128,
        status % 128 == 127 ==> code == 255,
        status == 19 ==> code == 147 || code == 255,
        code == 0 ==> destination_of(code as u8) == Place::Done,
        code != 0 ==> destination_of(code as u8) == Place::Fail,
{
}

/// The line at the end of a job file is `+ exit=` and the exit code in decimal, behind two newlines and
/// in front of one.
pub proof fn law_trailer(code: u8)
    ensures
        exists|digits: Seq<char>| #[trigger]
            writes(digits, code as nat, 10, 0) && trailer_text(code) == seq![
                '\n',
                '\n',
                '+',
                ' ',
                'e',
                'x',
                'i',
                't',
                '=',
            ] + digits + seq!['\n'],
{
    reveal_strlit("\n\n+ exit=");
    let digits = numeral(code as nat, 10);
    law_numeral_is_positional(code as nat, 10);
    assert(trailer_text(code) =~= seq!['\n', '\n', '+', ' ', 'e', 'x', 'i', 't', '='] + digits + seq![
        '\n',
    ]);
}

} // verus!
