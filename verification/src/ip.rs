//! Managing service addresses on the loopback interface: which address is
//! meant, what the interface listing says, and what the kernel's answer
//! to an add or a delete means. The netlink and command-line exchanges
//! themselves happen outside the library.

use vstd::prelude::*;
use crate::address::{dotted_quad, is_digit, is_dotted_quad, parse_dotted_quad, quad_value};
use crate::text::{chars_of, contains_text, occurs_at, text_contains};

verus! {

/// Interface index of the loopback interface.
pub const LOOPBACK_INDEX: u32 = 1;

/// Service addresses are host routes.
pub const PREFIX_LEN: u8 = 32;

/// Result of a successful add or delete.
#[derive(Clone, Copy, Debug, PartialEq, Eq, Structural)]
pub enum Change {
    /// The interface was changed.
    Applied,
    /// The interface already was in the requested shape.
    AlreadyInPlace,
}

/// Why an address operation failed.
#[derive(Debug)]
pub enum IpError {
    /// The text is not an IPv4 address.
    InvalidAddress(String),
    /// The kernel (or the `ip` command) refused the change; the message it
    /// gave.
    Rejected(String),
}

/// Reads a service address; every add, delete and presence test starts
/// with it and fails with `InvalidAddress` when the text is no dotted-quad
/// IPv4 address. The value is the address as a 32-bit number, first octet
/// most significant.
pub fn parse_address(ip: &str) -> (r: Result<u32, IpError>)
    ensures
        match r {
            Ok(v) => exists|a: u8, b: u8, c: u8, d: u8|
                ip@ == #[trigger] dotted_quad(a, b, c, d) && v == quad_value(a, b, c, d) && v as int
                    == a as int * 16777216 + b as int * 65536 + c as int * 256 + d as int,
            Err(e) => !is_dotted_quad(ip@) && (e matches IpError::InvalidAddress(t) && t@ == ip@),
        },
{
    match parse_dotted_quad(ip) {
        Some(a) => Ok(a),
        None => Err(IpError::InvalidAddress(String::from_str(ip))),
    }
}

/// One address message of a netlink listing of the loopback interface:
/// its prefix length and the IPv4 addresses among its attributes.
#[derive(Debug)]
pub struct AddressEntry {
    pub prefix_len: u8,
    pub addresses: Vec<u32>,
}

/// Whether a netlink listing holds `addr` as a host address (prefix 32).
pub fn loopback_lists(entries: &Vec<AddressEntry>, addr: u32) -> (present: bool)
    ensures
        present == exists|i: int|
            0 <= i < entries@.len() && #[trigger] entries@[i].prefix_len == PREFIX_LEN
                && entries@[i].addresses@.contains(addr),
{
    let n = entries.len();
    for i in 0..n
        invariant
            n == entries@.len(),
            forall|j: int|
                0 <= j < i ==> !(#[trigger] entries@[j].prefix_len == PREFIX_LEN
                    && entries@[j].addresses@.contains(addr)),
    {
        if entries[i].prefix_len == PREFIX_LEN && holds_value(&entries[i].addresses, addr) {
            return true;
        }
    }
    false
}

fn holds_value(values: &Vec<u32>, x: u32) -> (r: bool)
    ensures
        r == values@.contains(x),
{
    let m = values.len();
    for k in 0..m
        invariant
            m == values@.len(),
            forall|l: int| 0 <= l < k ==> #[trigger] values@[l] != x,
    {
        if values[k] == x {
            assert(values@[k as int] == x);
            return true;
        }
    }
    false
}

/// `entry` stands in `listing` at position `i` and starts a token there:
/// it is at the very start, or the character before it is neither a digit
/// nor a dot (so `10.0.0.1/32` is not found inside `110.0.0.1/32`).
pub open spec fn entry_at(listing: Seq<char>, i: int, entry: Seq<char>) -> bool {
    &&& 0 <= i
    &&& i + entry.len() <= listing.len()
    &&& listing.subrange(i, i + entry.len()) == entry
    &&& (i == 0 || (!is_digit(listing[i - 1]) && listing[i - 1] != '.'))
}

/// Listing law: `<ip>/32` found at a position of the listing counts
/// exactly when it stands there in full and starts a token (at the start,
/// or after a character that is neither a digit nor a dot), wherever in
/// the listing that position is.
pub proof fn entry_at_written_out(listing: Seq<char>, ip: Seq<char>, i: int)
    ensures
        entry_at(listing, i, ip + "/32"@) <==> (0 <= i && i + ip.len() + 3 <= listing.len()
            && listing.subrange(i, i + ip.len() + 3) == ip + "/32"@ && (i == 0 || (!('0' <= listing[i
            - 1] && listing[i - 1] <= '9') && listing[i - 1] != '.'))),
{
    reveal_strlit("/32");
}

/// Whether the output of `ip addr show dev lo` lists `ip` as a host
/// address: it holds the token `<ip>/32`, not merely that text inside a
/// longer address.
pub fn listing_shows(listing: &str, ip: &str) -> (present: bool)
    ensures
        present == exists|i: int| #[trigger] entry_at(listing@, i, ip@ + "/32"@),
        present <==> exists|i: int|
            0 <= i && i + ip@.len() + 3 <= listing@.len() && #[trigger] listing@.subrange(
                i,
                i + ip@.len() + 3,
            ) == ip@ + "/32"@ && (i == 0 || (!('0' <= listing@[i - 1] && listing@[i - 1] <= '9')
                && listing@[i - 1] != '.')),
{
    let host = String::from_str(ip).concat("/32");
    let ghost entry = ip@ + "/32"@;
    proof {
        reveal_strlit("/32");
    }
    let h = chars_of(listing);
    let n = chars_of(host.as_str());
    if n.len() > h.len() {
        return false;
    }
    let last = h.len() - n.len();
    let mut i: usize = 0;
    loop
        invariant
            h@ == listing@,
            n@ == entry,
            entry == ip@ + "/32"@,
            entry.len() == ip@.len() + 3,
            last == h@.len() - n@.len(),
            i <= last,
            forall|k: int| 0 <= k < i ==> !#[trigger] entry_at(listing@, k, entry),
        decreases last - i,
    {
        if occurs_at(&h, i, &n) && (i == 0 || (!('0' <= h[i - 1] && h[i - 1] <= '9') && h[i - 1]
            != '.')) {
            assert(entry_at(listing@, i as int, entry));
            proof {
                entry_at_written_out(listing@, ip@, i as int);
            }
            assert(listing@.subrange(i as int, i + ip@.len() + 3) == ip@ + "/32"@);
            return true;
        }
        if i == last {
            assert forall|k: int| #[trigger] entry_at(listing@, k, entry) implies false by {
                if k > last {
                    assert(k + entry.len() > listing@.len());
                }
            }
            assert forall|k: int|
                0 <= k && k + ip@.len() + 3 <= listing@.len() && #[trigger] listing@.subrange(
                    k,
                    k + ip@.len() + 3,
                ) == ip@ + "/32"@ implies !(k == 0 || (!('0' <= listing@[k - 1] && listing@[k - 1]
                <= '9') && listing@[k - 1] != '.')) by {
                entry_at_written_out(listing@, ip@, k);
            }
            return false;
        }
        i = i + 1;
    }
}

/// A refused add whose message says the address exists already.
pub open spec fn add_refusal_means_present(message: Seq<char>) -> bool {
    text_contains(message, "File exists"@) || text_contains(message, "errno 17"@)
}

/// A refused delete whose message says the address is not there.
pub open spec fn delete_refusal_means_absent(message: Seq<char>) -> bool {
    text_contains(message, "Cannot assign"@) || text_contains(message, "errno 99"@)
}

/// Refusal law: a refused add counts as "already there" exactly when its
/// message holds "File exists" or "errno 17" (EEXIST); a refused delete
/// counts as "already gone" exactly when its message holds "Cannot assign"
/// or "errno 99" (EADDRNOTAVAIL). Every other refusal is an error.
pub proof fn refusal_law(message: Seq<char>)
    ensures
        add_refusal_means_present(message) <==> (text_contains(message, "File exists"@)
            || text_contains(message, "errno 17"@)),
        delete_refusal_means_absent(message) <==> (text_contains(message, "Cannot assign"@)
            || text_contains(message, "errno 99"@)),
{
}

/// Interprets the kernel's answer to adding an address: success, or an
/// "exists already" refusal, is no error.
pub fn add_outcome(answer: Result<(), String>) -> (r: Result<Change, IpError>)
    ensures
        match answer {
            Ok(()) => r == Ok::<Change, IpError>(Change::Applied),
            Err(m) => if add_refusal_means_present(m@) {
                r == Ok::<Change, IpError>(Change::AlreadyInPlace)
            } else {
                r matches Err(IpError::Rejected(t)) && t@ == m@
            },
        },
        match answer {
            Ok(()) => r == Ok::<Change, IpError>(Change::Applied),
            Err(m) => ((text_contains(m@, "File exists"@) || text_contains(m@, "errno 17"@)) ==> r
                == Ok::<Change, IpError>(Change::AlreadyInPlace)) && (!text_contains(
                m@,
                "File exists"@,
            ) && !text_contains(m@, "errno 17"@) ==> (r matches Err(IpError::Rejected(t)) && t@
                == m@)),
        },
{
    match answer {
        Ok(()) => Ok(Change::Applied),
        Err(m) => {
            if contains_text(m.as_str(), "File exists") || contains_text(m.as_str(), "errno 17") {
                Ok(Change::AlreadyInPlace)
            } else {
                Err(IpError::Rejected(m))
            }
        },
    }
}

/// Interprets the kernel's answer to deleting an address: success, or a
/// "not there" refusal, is no error.
pub fn delete_outcome(answer: Result<(), String>) -> (r: Result<Change, IpError>)
    ensures
        match answer {
            Ok(()) => r == Ok::<Change, IpError>(Change::Applied),
            Err(m) => if delete_refusal_means_absent(m@) {
                r == Ok::<Change, IpError>(Change::AlreadyInPlace)
            } else {
                r matches Err(IpError::Rejected(t)) && t@ == m@
            },
        },
        match answer {
            Ok(()) => r == Ok::<Change, IpError>(Change::Applied),
            Err(m) => ((text_contains(m@, "Cannot assign"@) || text_contains(m@, "errno 99"@)) ==> r
                == Ok::<Change, IpError>(Change::AlreadyInPlace)) && (!text_contains(
                m@,
                "Cannot assign"@,
            ) && !text_contains(m@, "errno 99"@) ==> (r matches Err(IpError::Rejected(t)) && t@
                == m@)),
        },
{
    match answer {
        Ok(()) => Ok(Change::Applied),
        Err(m) => {
            if contains_text(m.as_str(), "Cannot assign") || contains_text(m.as_str(), "errno 99") {
                Ok(Change::AlreadyInPlace)
            } else {
                Err(IpError::Rejected(m))
            }
        },
    }
}

/// Interprets `ip addr add <ip>/32 dev lo`: a zero exit, or an error
/// output saying the address exists, is no error.
pub fn command_add_outcome(succeeded: bool, stderr: String) -> (r: Result<Change, IpError>)
    ensures
        succeeded ==> r == Ok::<Change, IpError>(Change::Applied),
        !succeeded && text_contains(stderr@, "File exists"@) ==> r == Ok::<Change, IpError>(
            Change::AlreadyInPlace,
        ),
        !succeeded && !text_contains(stderr@, "File exists"@) ==> (r matches Err(
            IpError::Rejected(t),
        ) && t@ == stderr@),
{
    if succeeded {
        Ok(Change::Applied)
    } else if contains_text(stderr.as_str(), "File exists") {
        Ok(Change::AlreadyInPlace)
    } else {
        Err(IpError::Rejected(stderr))
    }
}

/// Interprets `ip addr del <ip>/32 dev lo`: a zero exit, or an error
/// output saying the address cannot be assigned (it is gone), is no error.
pub fn command_delete_outcome(succeeded: bool, stderr: String) -> (r: Result<Change, IpError>)
    ensures
        succeeded ==> r == Ok::<Change, IpError>(Change::Applied),
        !succeeded && text_contains(stderr@, "Cannot assign requested address"@) ==> r == Ok::<
            Change,
            IpError,
        >(Change::AlreadyInPlace),
        !succeeded && !text_contains(stderr@, "Cannot assign requested address"@) ==> (r matches Err(
            IpError::Rejected(t),
        ) && t@ == stderr@),
{
    if succeeded {
        Ok(Change::Applied)
    } else if contains_text(stderr.as_str(), "Cannot assign requested address") {
        Ok(Change::AlreadyInPlace)
    } else {
        Err(IpError::Rejected(stderr))
    }
}

} // verus!
