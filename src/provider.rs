use vstd::prelude::*;
use crate::text::{chars_of, lower_of, lowercase};

verus! {

/// Where a mail provider's server is reached, and what its trash folder is called.
#[derive(Debug, Clone, Copy)]
pub struct ImapProvider {
    pub host: &'static str,
    pub port: u16,
    pub trash_folder: &'static str,
}

/// `p` occurs somewhere in `s`.
pub open spec fn contains_seq(s: Seq<char>, p: Seq<char>) -> bool {
    exists|i: int| 0 <= i && i + p.len() <= s.len() && #[trigger] s.subrange(i, i + p.len()) == p
}

/// Position of the last `@` before position `i`, or -1.
pub open spec fn spec_last_at(s: Seq<char>, i: int) -> int
    decreases i,
{
    if i <= 0 || i > s.len() {
        -1
    } else if s[i - 1] == '@' {
        i - 1
    } else {
        spec_last_at(s, i - 1)
    }
}

/// What follows the last `@` of an address; the whole address if it has none.
pub open spec fn spec_domain(email: Seq<char>) -> Seq<char> {
    email.subrange(spec_last_at(email, email.len() as int) + 1, email.len() as int)
}

/// The provider that serves a lowercased domain; the common default where no
/// rule matches.
pub open spec fn spec_provider(domain: Seq<char>) -> ImapProvider {
    if contains_seq(domain, "outlook"@) || contains_seq(domain, "hotmail"@) || contains_seq(
        domain,
        "live.com"@,
    ) {
        ImapProvider { host: "imap-mail.outlook.com", port: 993, trash_folder: "Deleted" }
    } else if contains_seq(domain, "yahoo"@) {
        ImapProvider { host: "imap.mail.yahoo.com", port: 993, trash_folder: "Trash" }
    } else if contains_seq(domain, "icloud"@) || contains_seq(domain, "me.com"@) || contains_seq(
        domain,
        "mac.com"@,
    ) {
        ImapProvider { host: "imap.mail.me.com", port: 993, trash_folder: "Deleted Messages" }
    } else {
        ImapProvider { host: "imap.gmail.com", port: 993, trash_folder: "[Gmail]/Trash" }
    }
}

/// Whether `pat` occurs in `s`.
pub fn contains_chars(s: &Vec<char>, pat: &str) -> (r: bool)
    ensures
        r == contains_seq(s@, pat@),
{
    let p = chars_of(pat);
    let n = s.len();
    let m = p.len();
    if m > n {
        proof {
            assert forall|i: int| 0 <= i && i + p@.len() <= s@.len() implies #[trigger] s@.subrange(
                i,
                i + p@.len(),
            ) != p@ by {}
        }
        return false;
    }
    let mut i: usize = 0;
    while i <= n - m
        invariant
            p@ == pat@,
            n == s@.len(),
            m == p@.len(),
            m <= n,
            i <= n - m + 1,
            forall|a: int| 0 <= a < i ==> #[trigger] s@.subrange(a, a + m) != p@,
        decreases n - m + 1 - i,
    {
        let mut j: usize = 0;
        let mut same = true;
        while j < m && same
            invariant
                i + m <= n,
                n == s@.len(),
                m == p@.len(),
                j <= m,
                same ==> forall|b: int| 0 <= b < j ==> s@[i + b] == p@[b],
                !same ==> j < m && s@[i + j] != p@[j as int],
            decreases m - j + if same { 1int } else { 0int },
        {
            if s[i + j] != p[j] {
                same = false;
            } else {
                j = j + 1;
            }
        }
        if same {
            proof {
                assert(s@.subrange(i as int, i + m) =~= p@);
            }
            return true;
        }
        proof {
            assert(s@.subrange(i as int, i + m)[j as int] != p@[j as int]);
        }
        i = i + 1;
    }
    proof {
        assert forall|a: int| 0 <= a && a + p@.len() <= s@.len() implies #[trigger] s@.subrange(
            a,
            a + p@.len(),
        ) != p@ by {
            assert(a < i);
        }
    }
    false
}

impl ImapProvider {
    /// The provider for a lowercased domain.
    pub fn from_domain(domain: &Vec<char>) -> (r: Self)
        ensures
            r == spec_provider(domain@),
    {
        if contains_chars(domain, "outlook") || contains_chars(domain, "hotmail") || contains_chars(
            domain,
            "live.com",
        ) {
            ImapProvider { host: "imap-mail.outlook.com", port: 993, trash_folder: "Deleted" }
        } else if contains_chars(domain, "yahoo") {
            ImapProvider { host: "imap.mail.yahoo.com", port: 993, trash_folder: "Trash" }
        } else if contains_chars(domain, "icloud") || contains_chars(domain, "me.com")
            || contains_chars(domain, "mac.com") {
            ImapProvider { host: "imap.mail.me.com", port: 993, trash_folder: "Deleted Messages" }
        } else {
            ImapProvider { host: "imap.gmail.com", port: 993, trash_folder: "[Gmail]/Trash" }
        }
    }

    /// The provider for an address, from its domain in lower case.
    pub fn from_email(email: &str) -> (r: Self)
        ensures
            r == spec_provider(lower_of(spec_domain(email@))),
    {
        let chars = chars_of(email);
        let n = chars.len();
        let mut i: usize = n;
        while i > 0 && chars[i - 1] != '@'
            invariant
                chars@ == email@,
                n == chars@.len(),
                i <= n,
                spec_last_at(chars@, n as int) == spec_last_at(chars@, i as int),
            decreases i,
        {
            i = i - 1;
        }
        let start: usize = if i > 0 {
            i
        } else {
            0
        };
        let lowered = lowercase(&chars.as_slice()[start..n]);
        let domain = chars_of(lowered.as_str());
        Self::from_domain(&domain)
    }
}

} // verus!
