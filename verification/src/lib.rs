//! Parsing of the kernel mount table (`/proc/<pid>/mountinfo` text format)
//! and containment/overlap queries over the parsed entries.

use vstd::prelude::*;

pub mod error;
pub mod mountinfo;
pub mod strutil;

pub use crate::error::{LineError, LineErrorView, ParseError};
pub use crate::mountinfo::{
    get_mount_from, get_mount_writable_from, get_submounts_from, MountInfoEntry,
    MountInfoEntryView, MountInfoIter, MountInfoParam, MountInfoParamView, VecMountEntry,
};

use crate::strutil::str_eq_str;

verus! {

/// One mount-flag token. Boolean-paired flags carry `true` for the plain
/// spelling (e.g. `atime`) and `false` for the negated one (e.g. `noatime`);
/// every unrecognized token is kept verbatim in `Extra`.
#[derive(Clone, PartialEq, Eq, Debug)]
pub enum MntOps {
    Atime(bool),
    DirAtime(bool),
    RelAtime(bool),
    Dev(bool),
    Exec(bool),
    Suid(bool),
    Write(bool),
    Extra(String),
}

/// Mathematical model of a `MntOps` value: the `Extra` payload is a
/// character sequence.
pub enum MntOpsView {
    Atime(bool),
    DirAtime(bool),
    RelAtime(bool),
    Dev(bool),
    Exec(bool),
    Suid(bool),
    Write(bool),
    Extra(Seq<char>),
}

impl View for MntOps {
    type V = MntOpsView;

    open spec fn view(&self) -> MntOpsView {
        match self {
            MntOps::Atime(b) => MntOpsView::Atime(*b),
            MntOps::DirAtime(b) => MntOpsView::DirAtime(*b),
            MntOps::RelAtime(b) => MntOpsView::RelAtime(*b),
            MntOps::Dev(b) => MntOpsView::Dev(*b),
            MntOps::Exec(b) => MntOpsView::Exec(*b),
            MntOps::Suid(b) => MntOpsView::Suid(*b),
            MntOps::Write(b) => MntOpsView::Write(*b),
            MntOps::Extra(s) => MntOpsView::Extra(s@),
        }
    }
}

/// The fixed vocabulary: which `MntOps` value one option token denotes.
/// Classification is total: unknown tokens fall through to `Extra`.
pub open spec fn mnt_ops_of_token(t: Seq<char>) -> MntOpsView {
    if t == "atime"@ {
        MntOpsView::Atime(true)
    } else if t == "noatime"@ {
        MntOpsView::Atime(false)
    } else if t == "diratime"@ {
        MntOpsView::DirAtime(true)
    } else if t == "nodiratime"@ {
        MntOpsView::DirAtime(false)
    } else if t == "relatime"@ {
        MntOpsView::RelAtime(true)
    } else if t == "norelatime"@ {
        MntOpsView::RelAtime(false)
    } else if t == "dev"@ {
        MntOpsView::Dev(true)
    } else if t == "nodev"@ {
        MntOpsView::Dev(false)
    } else if t == "exec"@ {
        MntOpsView::Exec(true)
    } else if t == "noexec"@ {
        MntOpsView::Exec(false)
    } else if t == "suid"@ {
        MntOpsView::Suid(true)
    } else if t == "nosuid"@ {
        MntOpsView::Suid(false)
    } else if t == "rw"@ {
        MntOpsView::Write(true)
    } else if t == "ro"@ {
        MntOpsView::Write(false)
    } else {
        MntOpsView::Extra(t)
    }
}

impl MntOps {
    /// Classify one option token. Total: never fails.
    pub fn from_str(token: &str) -> (r: MntOps)
        ensures
            r@ == mnt_ops_of_token(token@),
    {
        if str_eq_str(token, "atime") {
            MntOps::Atime(true)
        } else if str_eq_str(token, "noatime") {
            MntOps::Atime(false)
        } else if str_eq_str(token, "diratime") {
            MntOps::DirAtime(true)
        } else if str_eq_str(token, "nodiratime") {
            MntOps::DirAtime(false)
        } else if str_eq_str(token, "relatime") {
            MntOps::RelAtime(true)
        } else if str_eq_str(token, "norelatime") {
            MntOps::RelAtime(false)
        } else if str_eq_str(token, "dev") {
            MntOps::Dev(true)
        } else if str_eq_str(token, "nodev") {
            MntOps::Dev(false)
        } else if str_eq_str(token, "exec") {
            MntOps::Exec(true)
        } else if str_eq_str(token, "noexec") {
            MntOps::Exec(false)
        } else if str_eq_str(token, "suid") {
            MntOps::Suid(true)
        } else if str_eq_str(token, "nosuid") {
            MntOps::Suid(false)
        } else if str_eq_str(token, "rw") {
            MntOps::Write(true)
        } else if str_eq_str(token, "ro") {
            MntOps::Write(false)
        } else {
            MntOps::Extra(token.to_owned())
        }
    }
}

/// Token classification is injective: two tokens that denote the same
/// `MntOps` value are the same token. In particular no token other than the
/// documented spelling reaches a given flag/polarity pair, and the catch-all
/// keeps distinct tokens distinct.
pub proof fn lemma_mnt_ops_token_injective(t1: Seq<char>, t2: Seq<char>)
    requires
        mnt_ops_of_token(t1) == mnt_ops_of_token(t2),
    ensures
        t1 == t2,
{
}

/// Each documented kernel spelling decodes to its flag/polarity pair, so
/// with the injectivity of classification the vocabulary is a bijection
/// between the fixed spellings and the non-`Extra` values.
pub proof fn lemma_mnt_ops_vocabulary()
    ensures
        mnt_ops_of_token("atime"@) == MntOpsView::Atime(true),
        mnt_ops_of_token("noatime"@) == MntOpsView::Atime(false),
        mnt_ops_of_token("diratime"@) == MntOpsView::DirAtime(true),
        mnt_ops_of_token("nodiratime"@) == MntOpsView::DirAtime(false),
        mnt_ops_of_token("relatime"@) == MntOpsView::RelAtime(true),
        mnt_ops_of_token("norelatime"@) == MntOpsView::RelAtime(false),
        mnt_ops_of_token("dev"@) == MntOpsView::Dev(true),
        mnt_ops_of_token("nodev"@) == MntOpsView::Dev(false),
        mnt_ops_of_token("exec"@) == MntOpsView::Exec(true),
        mnt_ops_of_token("noexec"@) == MntOpsView::Exec(false),
        mnt_ops_of_token("suid"@) == MntOpsView::Suid(true),
        mnt_ops_of_token("nosuid"@) == MntOpsView::Suid(false),
        mnt_ops_of_token("rw"@) == MntOpsView::Write(true),
        mnt_ops_of_token("ro"@) == MntOpsView::Write(false),
{
    reveal_strlit("atime");
    reveal_strlit("noatime");
    reveal_strlit("diratime");
    reveal_strlit("nodiratime");
    reveal_strlit("relatime");
    reveal_strlit("norelatime");
    reveal_strlit("dev");
    reveal_strlit("nodev");
    reveal_strlit("exec");
    reveal_strlit("noexec");
    reveal_strlit("suid");
    reveal_strlit("nosuid");
    reveal_strlit("rw");
    reveal_strlit("ro");
    assert("atime"@.len() == 5);
    assert("noatime"@.len() == 7);
    assert("diratime"@.len() == 8);
    assert("nodiratime"@.len() == 10);
    assert("relatime"@.len() == 8);
    assert("norelatime"@.len() == 10);
    assert("dev"@.len() == 3);
    assert("nodev"@.len() == 5);
    assert("exec"@.len() == 4);
    assert("noexec"@.len() == 6);
    assert("suid"@.len() == 4);
    assert("nosuid"@.len() == 6);
    assert("rw"@.len() == 2);
    assert("ro"@.len() == 2);
    assert("relatime"@[0] == 'r' && "diratime"@[0] == 'd');
    assert("norelatime"@[2] == 'r' && "nodiratime"@[2] == 'd');
    assert("nodev"@[0] == 'n' && "atime"@[0] == 'a');
    assert("suid"@[0] == 's' && "exec"@[0] == 'e');
    assert("nosuid"@[2] == 's' && "noexec"@[2] == 'e');
    assert("ro"@[1] == 'o' && "rw"@[1] == 'w');
}

} // verus!
