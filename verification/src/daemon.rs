//! The file by which supervisors find a running daemon.
use vstd::prelude::*;

use crate::parse::{natural_in, parse_natural, trim, trimmed};
use crate::text::{nat_text, show_u64};

verus! {

/// The file that names the daemon's process. It is informational: it lets
/// supervisors find the process, send it signals, and detect a crash. It is
/// removed when the daemon stops, but only if it still names this process:
/// another daemon that started later may have overwritten it.
#[derive(Debug)]
pub struct PidFile {
    path: String,
    pid: u32,
}

impl PidFile {
    /// Where the file is.
    pub closed spec fn location(&self) -> Seq<char> {
        self.path@
    }

    /// The process that the file names.
    pub closed spec fn process(&self) -> u32 {
        self.pid
    }

    /// The file of a process at a path.
    pub fn new(path: &str, pid: u32) -> (r: Self)
        ensures
            r.location() == path@,
            r.process() == pid,
    {
        PidFile { path: path.to_owned(), pid }
    }

    /// The path to the file.
    pub fn path(&self) -> (r: &str)
        ensures
            r@ == self.location(),
    {
        self.path.as_str()
    }

    /// What the file holds: the process id in decimal.
    pub fn content(&self) -> (r: String)
        ensures
            r@ == nat_text(self.process() as nat),
    {
        show_u64(self.pid as u64)
    }

    /// Whether a file with this content still names this process.
    pub fn names_us(&self, content: &str) -> (r: bool)
        ensures
            r == (natural_in(trimmed(content@), u32::MAX as nat) == Some(self.process() as nat)),
    {
        let text = trim(content);
        match parse_natural(text.as_str(), u32::MAX as u64) {
            Some(n) => n == self.pid as u64,
            None => false,
        }
    }
}

/// The decimal text of a number is read as the number.
proof fn lemma_reads_back(n: nat)
    ensures
        crate::parse::digits_value(nat_text(n)) == Some(n),
        nat_text(n).len() > 0,
        forall|i: int|
            0 <= i < nat_text(n).len() ==> '0' <= #[trigger] nat_text(n)[i] <= '9',
    decreases n,
{
    let s = nat_text(n);
    if n >= 10 {
        lemma_reads_back(n / 10);
        assert(s.drop_last() =~= nat_text(n / 10));
    }
}

/// What the file holds names the process that wrote it, and no other.
pub proof fn law_content_names_its_process(pid: u32, other: u32)
    ensures
        natural_in(trimmed(nat_text(pid as nat)), u32::MAX as nat) == Some(other as nat) <==> pid
            == other,
{
    let s = nat_text(pid as nat);
    lemma_reads_back(pid as nat);
    assert(!crate::text::is_white(s[0]));
    assert(!crate::text::is_white(s.last()));
    assert(trimmed(s) == s);
}

} // verus!
