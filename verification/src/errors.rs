//! Error-message lookup: static English descriptions for the common errno
//! values, and the bounded, always-terminated buffer fill around them.
//!
//! The message texts themselves are a catalog, specified only at their
//! boundary: every message is non-empty and null-terminated. The buffer
//! fill logic carries the exact contract.

use vstd::prelude::*;
use vstd::string::StrSliceExecFns;

use crate::copying::copy_elems;
use crate::specs::term_len;

verus! {

broadcast use vstd::slice::group_slice_axioms;

/// Status returned when the error number is not known.
pub const EINVAL: i32 = 22;

/// Status returned when the buffer cannot hold the whole message.
pub const ERANGE: i32 = 34;

/// The error numbers the catalog describes.
pub open spec fn known_errno(e: int) -> bool {
    (0 <= e <= 40) || (42 <= e <= 57) || (59 <= e <= 133)
}

/// A catalog message: non-empty and ending in a null byte.
pub open spec fn valid_message(m: Seq<u8>) -> bool {
    m.len() >= 1 && m[m.len() - 1] == 0
}

/// A message text as an owned, null-terminated buffer.
fn term_msg(text: &str) -> (r: Vec<u8>)
    ensures
        valid_message(r@),
{
    let mut v = text.as_bytes_vec();
    v.push(0);
    v
}

/// The catalog fallback for unknown error numbers.
pub fn unknown_error_message() -> (r: Vec<u8>)
    ensures
        valid_message(r@),
{
    term_msg("Unknown error")
}

/// The catalog entry for `errnum`: `Some` exactly for the known error
/// numbers, always a valid message.
pub(crate) fn lookup_error_message(errnum: i32) -> (r: Option<Vec<u8>>)
    ensures
        r is Some <==> known_errno(errnum as int),
        match r {
            Some(m) => valid_message(m@),
            None => true,
        },
{
    match errnum {
        0 => Some(term_msg("Success")),
        1 => Some(term_msg("Operation not permitted")),
        2 => Some(term_msg("No such file or directory")),
        3 => Some(term_msg("No such process")),
        4 => Some(term_msg("Interrupted system call")),
        5 => Some(term_msg("Input/output error")),
        6 => Some(term_msg("No such device or address")),
        7 => Some(term_msg("Argument list too long")),
        8 => Some(term_msg("Exec format error")),
        9 => Some(term_msg("Bad file descriptor")),
        10 => Some(term_msg("No child processes")),
        11 => Some(term_msg("Resource temporarily unavailable")),
        12 => Some(term_msg("Cannot allocate memory")),
        13 => Some(term_msg("Permission denied")),
        14 => Some(term_msg("Bad address")),
        15 => Some(term_msg("Block device required")),
        16 => Some(term_msg("Device or resource busy")),
        17 => Some(term_msg("File exists")),
        18 => Some(term_msg("Invalid cross-device link")),
        19 => Some(term_msg("No such device")),
        20 => Some(term_msg("Not a directory")),
        21 => Some(term_msg("Is a directory")),
        22 => Some(term_msg("Invalid argument")),
        23 => Some(term_msg("Too many open files in system")),
        24 => Some(term_msg("Too many open files")),
        25 => Some(term_msg("Inappropriate ioctl for device")),
        26 => Some(term_msg("Text file busy")),
        27 => Some(term_msg("File too large")),
        28 => Some(term_msg("No space left on device")),
        29 => Some(term_msg("Illegal seek")),
        30 => Some(term_msg("Read-only file system")),
        31 => Some(term_msg("Too many links")),
        32 => Some(term_msg("Broken pipe")),
        33 => Some(term_msg("Numerical argument out of domain")),
        34 => Some(term_msg("Numerical result out of range")),
        35 => Some(term_msg("Resource deadlock avoided")),
        36 => Some(term_msg("File name too long")),
        37 => Some(term_msg("No locks available")),
        38 => Some(term_msg("Function not implemented")),
        39 => Some(term_msg("Directory not empty")),
        40 => Some(term_msg("Too many levels of symbolic links")),
        42 => Some(term_msg("No message of desired type")),
        43 => Some(term_msg("Identifier removed")),
        44 => Some(term_msg("Channel number out of range")),
        45 => Some(term_msg("Level 2 not synchronized")),
        46 => Some(term_msg("Level 3 halted")),
        47 => Some(term_msg("Level 3 reset")),
        48 => Some(term_msg("Link number out of range")),
        49 => Some(term_msg("Protocol driver not attached")),
        50 => Some(term_msg("No CSI structure available")),
        51 => Some(term_msg("Level 2 halted")),
        52 => Some(term_msg("Invalid exchange")),
        53 => Some(term_msg("Invalid request descriptor")),
        54 => Some(term_msg("Exchange full")),
        55 => Some(term_msg("No anode")),
        56 => Some(term_msg("Invalid request code")),
        57 => Some(term_msg("Invalid slot")),
        59 => Some(term_msg("Bad font file format")),
        60 => Some(term_msg("Device not a stream")),
        61 => Some(term_msg("No data available")),
        62 => Some(term_msg("Timer expired")),
        63 => Some(term_msg("Out of streams resources")),
        64 => Some(term_msg("Machine is not on the network")),
        65 => Some(term_msg("Package not installed")),
        66 => Some(term_msg("Object is remote")),
        67 => Some(term_msg("Link has been severed")),
        68 => Some(term_msg("Advertise error")),
        69 => Some(term_msg("Srmount error")),
        70 => Some(term_msg("Communication error on send")),
        71 => Some(term_msg("Protocol error")),
        72 => Some(term_msg("Multihop attempted")),
        73 => Some(term_msg("RFS specific error")),
        74 => Some(term_msg("Bad message")),
        75 => Some(term_msg("Value too large for defined data type")),
        76 => Some(term_msg("Name not unique on network")),
        77 => Some(term_msg("File descriptor in bad state")),
        78 => Some(term_msg("Remote address changed")),
        79 => Some(term_msg("Can not access a needed shared library")),
        80 => Some(term_msg("Accessing a corrupted shared library")),
        81 => Some(term_msg(".lib section in a.out corrupted")),
        82 => Some(term_msg("Attempting to link in too many shared libraries")),
        83 => Some(term_msg("Cannot exec a shared library directly")),
        84 => Some(term_msg("Invalid or incomplete multibyte or wide character")),
        85 => Some(term_msg("Interrupted system call should be restarted")),
        86 => Some(term_msg("Streams pipe error")),
        87 => Some(term_msg("Too many users")),
        88 => Some(term_msg("Socket operation on non-socket")),
        89 => Some(term_msg("Destination address required")),
        90 => Some(term_msg("Message too long")),
        91 => Some(term_msg("Protocol wrong type for socket")),
        92 => Some(term_msg("Protocol not available")),
        93 => Some(term_msg("Protocol not supported")),
        94 => Some(term_msg("Socket type not supported")),
        95 => Some(term_msg("Operation not supported")),
        96 => Some(term_msg("Protocol family not supported")),
        97 => Some(term_msg("Address family not supported by protocol")),
        98 => Some(term_msg("Address already in use")),
        99 => Some(term_msg("Cannot assign requested address")),
        100 => Some(term_msg("Network is down")),
        101 => Some(term_msg("Network is unreachable")),
        102 => Some(term_msg("Network dropped connection on reset")),
        103 => Some(term_msg("Software caused connection abort")),
        104 => Some(term_msg("Connection reset by peer")),
        105 => Some(term_msg("No buffer space available")),
        106 => Some(term_msg("Transport endpoint is already connected")),
        107 => Some(term_msg("Transport endpoint is not connected")),
        108 => Some(term_msg("Cannot send after transport endpoint shutdown")),
        109 => Some(term_msg("Too many references: cannot splice")),
        110 => Some(term_msg("Connection timed out")),
        111 => Some(term_msg("Connection refused")),
        112 => Some(term_msg("Host is down")),
        113 => Some(term_msg("No route to host")),
        114 => Some(term_msg("Operation already in progress")),
        115 => Some(term_msg("Operation now in progress")),
        116 => Some(term_msg("Stale file handle")),
        117 => Some(term_msg("Structure needs cleaning")),
        118 => Some(term_msg("Not a XENIX named type file")),
        119 => Some(term_msg("No XENIX semaphores available")),
        120 => Some(term_msg("Is a named type file")),
        121 => Some(term_msg("Remote I/O error")),
        122 => Some(term_msg("Disk quota exceeded")),
        123 => Some(term_msg("No medium found")),
        124 => Some(term_msg("Wrong medium type")),
        125 => Some(term_msg("Operation canceled")),
        126 => Some(term_msg("Required key not available")),
        127 => Some(term_msg("Key has expired")),
        128 => Some(term_msg("Key has been revoked")),
        129 => Some(term_msg("Key was rejected by service")),
        130 => Some(term_msg("Owner died")),
        131 => Some(term_msg("State not recoverable")),
        132 => Some(term_msg("Operation not possible due to RF-kill")),
        133 => Some(term_msg("Memory page has hardware error")),
        _ => None,
    }
}

/// The message for `errnum`: the catalog entry when `errnum` is known, the
/// fallback otherwise; always a valid message.
pub fn strerror(errnum: i32) -> (r: Vec<u8>)
    ensures
        valid_message(r@),
{
    match lookup_error_message(errnum) {
        Some(m) => m,
        None => unknown_error_message(),
    }
}

/// Write `msg` into `buf`, truncating when it does not fit but always
/// terminating a non-empty buffer. Returns whether the whole message fit.
pub fn copy_message(buf: &mut [u8], msg: &[u8]) -> (fit: bool)
    requires
        valid_message(msg@),
    ensures
        final(buf)@.len() == old(buf)@.len(),
        fit == (msg@.len() <= old(buf)@.len()),
        fit ==> {
            &&& forall|i: int| 0 <= i < msg@.len() ==> final(buf)@[i] == msg@[i]
            &&& forall|i: int|
                msg@.len() <= i < old(buf)@.len() ==> final(buf)@[i] == old(buf)@[i]
        },
        !fit && old(buf)@.len() > 0 ==> {
            &&& forall|i: int| 0 <= i < old(buf)@.len() - 1 ==> final(buf)@[i] == msg@[i]
            &&& final(buf)@[old(buf)@.len() - 1] == 0
        },
        old(buf)@.len() == 0 ==> final(buf)@ == old(buf)@,
{
    proof {
        vstd::slice::axiom_spec_len(buf);
        vstd::slice::axiom_spec_len(msg);
    }
    if msg.len() <= buf.len() {
        copy_elems(buf, 0, msg, 0, msg.len());
        true
    } else if buf.len() == 0 {
        false
    } else {
        let copy_len: usize = buf.len() - 1;
        copy_elems(buf, 0, msg, 0, copy_len);
        buf[copy_len] = 0;
        false
    }
}

/// Write the message for `errnum` into `buf`: 0 on success, [`EINVAL`]
/// when `errnum` is unknown (the fallback text is written), [`ERANGE`]
/// when the buffer is too small (the message is truncated but a non-empty
/// buffer is still terminated).
pub fn strerror_r(errnum: i32, buf: &mut [u8]) -> (r: i32)
    ensures
        final(buf)@.len() == old(buf)@.len(),
        r == 0 || r == EINVAL || r == ERANGE,
        r == 0 ==> known_errno(errnum as int),
        r == EINVAL ==> !known_errno(errnum as int),
        old(buf)@.len() == 0 ==> r == ERANGE && final(buf)@ == old(buf)@,
        old(buf)@.len() > 0 ==> term_len(final(buf)@, 0u8) < final(buf)@.len(),
{
    proof {
        vstd::slice::axiom_spec_len(buf);
    }
    if buf.len() == 0 {
        return ERANGE;
    }
    let looked = lookup_error_message(errnum);
    let known = looked.is_some();
    let msg: Vec<u8> = match looked {
        Some(m) => m,
        None => unknown_error_message(),
    };
    let fit = copy_message(buf, msg.as_slice());
    proof {
        crate::specs::lemma_term_len(buf@, 0u8);
        if fit {
            assert(buf@[msg@.len() - 1] == 0);
        } else {
            assert(buf@[buf@.len() - 1] == 0);
        }
    }
    if !fit {
        ERANGE
    } else if known {
        0
    } else {
        EINVAL
    }
}

} // verus!
