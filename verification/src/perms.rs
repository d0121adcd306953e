//! File access permissions modelled after POSIX permission bits.
//!
//! A `Perms` value wraps a `u32` in which only the low twelve bits (the
//! classic `rwxrwxrwx` triples plus the set-uid, set-gid and sticky bits)
//! may be set.  Values are built from the mask constants with the bitwise
//! operators and rendered in the familiar `ls -l` nine-character form.

use vstd::prelude::*;

verus! {

/// File access permissions.
///
/// Build an instance by combining the mask constants with `|` and
/// converting through [`Perms::try_from`], or combine already-validated
/// `Perms` values directly with the bitwise operators.
#[derive(Debug, Copy, Clone, PartialEq, Eq, Structural)]
pub struct Perms(pub u32);

/// The error returned when a `u32` with bits outside the permission mask
/// is converted to [`Perms`].
#[derive(Debug, Copy, Clone, PartialEq, Eq, Structural)]
pub struct PermsTryFromError;

/// True exactly when `value` has no bits outside the permission mask.
pub open spec fn perms_valid(value: u32) -> bool {
    value & !0o7777u32 == 0
}

impl Perms {
    /// No permission bits (`0`).
    pub const NONE: u32 = 0;

    /// File owner has read permission (POSIX `S_IRUSR`).
    pub const OWNER_READ: u32 = 0o400;

    /// File owner has write permission (POSIX `S_IWUSR`).
    pub const OWNER_WRITE: u32 = 0o200;

    /// File owner has execute/search permission (POSIX `S_IXUSR`).
    pub const OWNER_EXEC: u32 = 0o100;

    /// File owner has read, write, and execute/search permissions
    /// (POSIX `S_IRWXU`).
    pub const OWNER_ALL: u32 = 0o700;

    /// The file's user group has read permission (POSIX `S_IRGRP`).
    pub const GROUP_READ: u32 = 0o40;

    /// The file's user group has write permission (POSIX `S_IWGRP`).
    pub const GROUP_WRITE: u32 = 0o20;

    /// The file's user group has execute/search permission (POSIX `S_IXGRP`).
    pub const GROUP_EXEC: u32 = 0o10;

    /// The file's user group has read, write, and execute/search permissions
    /// (POSIX `S_IRWXG`).
    pub const GROUP_ALL: u32 = 0o70;

    /// Other users have read permission (POSIX `S_IROTH`).
    pub const OTHERS_READ: u32 = 0o4;

    /// Other users have write permission (POSIX `S_IWOTH`).
    pub const OTHERS_WRITE: u32 = 0o2;

    /// Other users have execute/search permission (POSIX `S_IXOTH`).
    pub const OTHERS_EXEC: u32 = 0o1;

    /// Other users have read, write, and execute/search permissions
    /// (POSIX `S_IRWXO`).
    pub const OTHERS_ALL: u32 = 0o7;

    /// All users have read, write, and execute/search permissions.
    pub const ALL: u32 = 0o777;

    /// Set user ID to file owner user ID on execution (POSIX `S_ISUID`).
    pub const SET_UID: u32 = 0o4000;

    /// Set group ID to file's user group ID on execution (POSIX `S_ISGID`).
    pub const SET_GID: u32 = 0o2000;

    /// Implementation defined sticky bit (POSIX `S_ISVTX`).
    pub const STICKY_BIT: u32 = 0o1000;

    /// All valid permission bits.
    pub const MASK: u32 = 0o7777;

    /// The permission bits held by this value.
    pub open spec fn bits_spec(self) -> u32 {
        self.0
    }

    /// Attempts to build file access permissions from a primitive integer.
    ///
    /// Succeeds exactly when no bits outside [`Perms::MASK`] are set.
    pub fn try_from(value: u32) -> (r: Result<Perms, PermsTryFromError>)
        ensures
            perms_valid(value) ==> r == Ok::<Perms, PermsTryFromError>(Perms(value)),
            !perms_valid(value) ==> r == Err::<Perms, PermsTryFromError>(PermsTryFromError),
    {
        if value & !0o7777u32 != 0 {
            Err(PermsTryFromError)
        } else {
            Ok(Perms(value))
        }
    }

    /// Returns `true` if the value is a valid representation of file access
    /// permissions, i.e. exactly when [`Perms::try_from`] would succeed.
    pub fn is_valid(value: u32) -> (r: bool)
        ensures
            r == perms_valid(value),
    {
        Self::try_from(value).is_ok()
    }

    /// The permission bits as a primitive integer.
    pub fn to_u32(self) -> (r: u32)
        ensures
            r == self.bits_spec(),
    {
        self.0
    }

    /// Renders the permissions in the nine-character `ls -l` form, e.g.
    /// `rwxr-xr-x`, with `s`/`S` and `t`/`T` for the set-uid, set-gid and
    /// sticky bits.
    pub fn to_string(&self) -> (r: String)
        ensures
            r@ == perms_display(self.0),
    {
        let v = self.0;
        let mut s = String::new();
        s.append(if v & 0o400u32 == 0o400u32 { "r" } else { "-" });
        s.append(if v & 0o200u32 == 0o200u32 { "w" } else { "-" });
        s.append(exec_char(v & 0o100u32 == 0o100u32, v & 0o4000u32 == 0o4000u32, false));
        s.append(if v & 0o40u32 == 0o40u32 { "r" } else { "-" });
        s.append(if v & 0o20u32 == 0o20u32 { "w" } else { "-" });
        s.append(exec_char(v & 0o10u32 == 0o10u32, v & 0o2000u32 == 0o2000u32, false));
        s.append(if v & 0o4u32 == 0o4u32 { "r" } else { "-" });
        s.append(if v & 0o2u32 == 0o2u32 { "w" } else { "-" });
        s.append(exec_char(v & 0o1u32 == 0o1u32, v & 0o1000u32 == 0o1000u32, true));
        proof {
            reveal_strlit("r");
            reveal_strlit("w");
            reveal_strlit("-");
        }
        assert(s@ =~= perms_display(self.0));
        s
    }
}

/// The display character of one execute-permission slot: `x`/`s`/`S` (or
/// `t`/`T` in the sticky slot) depending on the execute and special bits.
pub open spec fn exec_char_spec(exec: bool, special: bool, sticky: bool) -> char {
    if exec && !special {
        'x'
    } else if exec && special {
        if sticky {
            't'
        } else {
            's'
        }
    } else if !exec && special {
        if sticky {
            'T'
        } else {
            'S'
        }
    } else {
        '-'
    }
}

fn exec_char(exec: bool, special: bool, sticky: bool) -> (r: &'static str)
    ensures
        r@ == seq![exec_char_spec(exec, special, sticky)],
{
    proof {
        reveal_strlit("x");
        reveal_strlit("s");
        reveal_strlit("S");
        reveal_strlit("t");
        reveal_strlit("T");
        reveal_strlit("-");
    }
    if exec && !special {
        "x"
    } else if exec && special {
        if sticky {
            "t"
        } else {
            "s"
        }
    } else if !exec && special {
        if sticky {
            "T"
        } else {
            "S"
        }
    } else {
        "-"
    }
}

/// The nine-character rendering of a permission word: three `rwx` triples,
/// with the set-uid, set-gid and sticky bits folded into the execute slots.
pub open spec fn perms_display(v: u32) -> Seq<char> {
    seq![
        if v & 0o400u32 == 0o400u32 { 'r' } else { '-' },
        if v & 0o200u32 == 0o200u32 { 'w' } else { '-' },
        exec_char_spec(v & 0o100u32 == 0o100u32, v & 0o4000u32 == 0o4000u32, false),
        if v & 0o40u32 == 0o40u32 { 'r' } else { '-' },
        if v & 0o20u32 == 0o20u32 { 'w' } else { '-' },
        exec_char_spec(v & 0o10u32 == 0o10u32, v & 0o2000u32 == 0o2000u32, false),
        if v & 0o4u32 == 0o4u32 { 'r' } else { '-' },
        if v & 0o2u32 == 0o2u32 { 'w' } else { '-' },
        exec_char_spec(v & 0o1u32 == 0o1u32, v & 0o1000u32 == 0o1000u32, true),
    ]
}

impl core::ops::BitAnd for Perms {
    type Output = Perms;

    fn bitand(self, rhs: Perms) -> Perms {
        Perms(self.0 & rhs.0)
    }
}

impl vstd::std_specs::ops::BitAndSpecImpl for Perms {
    open spec fn obeys_bitand_spec() -> bool {
        true
    }

    open spec fn bitand_req(self, rhs: Perms) -> bool {
        true
    }

    open spec fn bitand_spec(self, rhs: Perms) -> Perms {
        Perms(self.0 & rhs.0)
    }
}

impl core::ops::BitOr for Perms {
    type Output = Perms;

    fn bitor(self, rhs: Perms) -> Perms {
        Perms(self.0 | rhs.0)
    }
}

impl vstd::std_specs::ops::BitOrSpecImpl for Perms {
    open spec fn obeys_bitor_spec() -> bool {
        true
    }

    open spec fn bitor_req(self, rhs: Perms) -> bool {
        true
    }

    open spec fn bitor_spec(self, rhs: Perms) -> Perms {
        Perms(self.0 | rhs.0)
    }
}

impl core::ops::BitXor for Perms {
    type Output = Perms;

    fn bitxor(self, rhs: Perms) -> Perms {
        Perms(self.0 ^ rhs.0)
    }
}

impl vstd::std_specs::ops::BitXorSpecImpl for Perms {
    open spec fn obeys_bitxor_spec() -> bool {
        true
    }

    open spec fn bitxor_req(self, rhs: Perms) -> bool {
        true
    }

    open spec fn bitxor_spec(self, rhs: Perms) -> Perms {
        Perms(self.0 ^ rhs.0)
    }
}

} // verus!
