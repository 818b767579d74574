//! The decisions around the OWL 2 DL reasoner `ousia-reason`: where it is,
//! what its output means, and the verdict it gives on a grounded model.
//! Running it (files and processes) happens outside this library.
use crate::error::AtscaleError;
use crate::text::{i32_to_decimal, owned, signed_decimal, string_views};
use vstd::prelude::*;

verus! {

/// Result of running the reasoner over the grounded model export.
#[derive(Debug, Clone, PartialEq, Eq)]
pub enum ConsistencyVerdict {
    /// OWL 2 DL profile conformant; no inconsistencies detected.
    Consistent,
    /// ABox inconsistencies were found.
    Inconsistent { details: String },
    /// OWL 2 DL profile violation detected.
    NotDl { construct: String },
}

/// The one-line summary of a verdict.
pub open spec fn verdict_summary(v: ConsistencyVerdict) -> Seq<char> {
    match v {
        ConsistencyVerdict::Consistent => "consistent"@,
        ConsistencyVerdict::Inconsistent { details } => "inconsistent \u{2014} "@ + details@,
        ConsistencyVerdict::NotDl { construct } => "not-dl \u{2014} "@ + construct@,
    }
}

impl ConsistencyVerdict {
    /// Human-readable one-line summary.
    pub fn summary(&self) -> (r: String)
        ensures
            r@ == verdict_summary(*self),
    {
        match self {
            ConsistencyVerdict::Consistent => owned("consistent"),
            ConsistencyVerdict::Inconsistent { details } => {
                let mut r = owned("inconsistent \u{2014} ");
                r.append(details.as_str());
                r
            },
            ConsistencyVerdict::NotDl { construct } => {
                let mut r = owned("not-dl \u{2014} ");
                r.append(construct.as_str());
                r
            },
        }
    }
}

/// The JSON report of `ousia-reason check --json`.
#[derive(Debug, Clone)]
pub struct CheckJson {
    pub dl_conformant: bool,
    pub violations: Vec<String>,
    pub consistent: bool,
    pub inconsistencies: Vec<String>,
}

/// The items of `list` joined by `sep`.
pub open spec fn joined(list: Seq<Seq<char>>, sep: Seq<char>) -> Seq<char>
    decreases list.len(),
{
    if list.len() == 0 {
        Seq::empty()
    } else if list.len() == 1 {
        list[0]
    } else {
        joined(list.drop_last(), sep) + sep + list.last()
    }
}

/// The strings of `list` joined by `sep`.
pub fn join(list: &Vec<String>, sep: &str) -> (r: String)
    ensures
        r@ == joined(string_views(list@), sep@),
{
    let mut r = String::new();
    let n = list.len();
    for i in 0..n
        invariant
            n == list@.len(),
            r@ == joined(string_views(list@).take(i as int), sep@),
    {
        proof {
            assert(string_views(list@).take(i + 1).drop_last() =~= string_views(list@).take(i as int));
        }
        if i != 0 {
            r.append(sep);
        } else {
            proof {
                assert(r@ =~= Seq::<char>::empty());
            }
        }
        r.append(list[i].as_str());
        proof {
            assert(string_views(list@).take(i + 1).last() == list@[i as int]@);
            if i == 0 {
                assert(r@ =~= string_views(list@).take(1)[0]);
            }
        }
    }
    proof {
        assert(string_views(list@).take(n as int) =~= string_views(list@));
    }
    r
}

/// `v` is the verdict of report `c`: a DL-profile violation comes first, then
/// an inconsistency; an empty list of reasons reads "unknown ...".
pub open spec fn is_verdict_of(v: ConsistencyVerdict, c: CheckJson) -> bool {
    if !c.dl_conformant {
        let j = joined(string_views(c.violations@), "; "@);
        v matches ConsistencyVerdict::NotDl { construct } && construct@ == if j.len() == 0 {
            "unknown violation"@
        } else {
            j
        }
    } else if !c.consistent {
        let j = joined(string_views(c.inconsistencies@), "; "@);
        v matches ConsistencyVerdict::Inconsistent { details } && details@ == if j.len() == 0 {
            "unknown inconsistency"@
        } else {
            j
        }
    } else {
        v == ConsistencyVerdict::Consistent
    }
}

/// Map a parsed reasoner report onto a verdict.
pub fn verdict_from_check(check: &CheckJson) -> (v: ConsistencyVerdict)
    ensures
        is_verdict_of(v, *check),
{
    if !check.dl_conformant {
        let construct = join(&check.violations, "; ");
        let construct = if construct.unicode_len() == 0 {
            owned("unknown violation")
        } else {
            construct
        };
        return ConsistencyVerdict::NotDl { construct };
    }
    if !check.consistent {
        let details = join(&check.inconsistencies, "; ");
        let details = if details.unicode_len() == 0 {
            owned("unknown inconsistency")
        } else {
            details
        };
        return ConsistencyVerdict::Inconsistent { details };
    }
    ConsistencyVerdict::Consistent
}

/// A DL-profile violation decides the verdict, whatever the consistency check
/// found.
pub proof fn lemma_dl_violation_first(v: ConsistencyVerdict, c: CheckJson)
    requires
        is_verdict_of(v, c),
        !c.dl_conformant,
    ensures
        v is NotDl,
{
}

/// A character with the Unicode `White_Space` property (what
/// `char::is_whitespace` accepts).
pub open spec fn is_white_space(c: char) -> bool {
    let u = c as u32;
    (0x09 <= u && u <= 0x0D) || u == 0x20 || u == 0x85 || u == 0xA0 || u == 0x1680 || (0x2000 <= u && u
        <= 0x200A) || u == 0x2028 || u == 0x2029 || u == 0x202F || u == 0x205F || u == 0x3000
}

/// `s` without its leading white space.
pub open spec fn trimmed_start(s: Seq<char>) -> Seq<char>
    decreases s.len(),
{
    if s.len() > 0 && is_white_space(s[0]) {
        trimmed_start(s.drop_first())
    } else {
        s
    }
}

/// `s` without its trailing white space.
pub open spec fn trimmed_end(s: Seq<char>) -> Seq<char>
    decreases s.len(),
{
    if s.len() > 0 && is_white_space(s.last()) {
        trimmed_end(s.drop_last())
    } else {
        s
    }
}

/// `s` without leading and trailing white space.
pub open spec fn trimmed(s: Seq<char>) -> Seq<char> {
    trimmed_end(trimmed_start(s))
}

/// Whether `c` has the Unicode `White_Space` property.
fn white_space(c: char) -> (b: bool)
    ensures
        b == is_white_space(c),
{
    let u = c as u32;
    (0x09 <= u && u <= 0x0D) || u == 0x20 || u == 0x85 || u == 0xA0 || u == 0x1680 || (0x2000 <= u && u
        <= 0x200A) || u == 0x2028 || u == 0x2029 || u == 0x202F || u == 0x205F || u == 0x3000
}

/// `s` without leading and trailing white space (as `str::trim`).
fn trim(s: &str) -> (r: &str)
    ensures
        r@ == trimmed(s@),
{
    let n = s.unicode_len();
    let mut a: usize = 0;
    proof {
        assert(s@.subrange(0, n as int) =~= s@);
    }
    while a < n
        invariant
            a <= n,
            n == s@.len(),
            trimmed_start(s@) == trimmed_start(s@.subrange(a as int, n as int)),
        ensures
            a <= n,
            trimmed_start(s@) == trimmed_start(s@.subrange(a as int, n as int)),
            a < n ==> !is_white_space(s@[a as int]),
        decreases n - a,
    {
        if !white_space(s.get_char(a)) {
            break;
        }
        proof {
            assert(s@.subrange(a as int, n as int).drop_first() =~= s@.subrange(a + 1, n as int));
        }
        a = a + 1;
    }
    proof {
        let x = s@.subrange(a as int, n as int);
        if a < n {
            assert(x[0] == s@[a as int]);
        } else {
            assert(x.len() == 0);
        }
        assert(trimmed_start(s@) == x);
    }
    let mut b: usize = n;
    while b > a
        invariant
            a <= b <= n,
            n == s@.len(),
            trimmed_end(s@.subrange(a as int, n as int)) == trimmed_end(s@.subrange(a as int, b as int)),
        ensures
            a <= b <= n,
            trimmed_end(s@.subrange(a as int, n as int)) == trimmed_end(s@.subrange(a as int, b as int)),
            b > a ==> !is_white_space(s@[b - 1]),
        decreases b,
    {
        if !white_space(s.get_char(b - 1)) {
            break;
        }
        proof {
            assert(s@.subrange(a as int, b as int).drop_last() =~= s@.subrange(a as int, b - 1));
        }
        b = b - 1;
    }
    proof {
        let y = s@.subrange(a as int, b as int);
        if b > a {
            assert(y.last() == s@[b - 1]);
        } else {
            assert(y.len() == 0);
        }
        assert(trimmed_end(y) == y);
    }
    s.substring_char(a, b)
}

/// What is tried when the reasoner is looked up on the `PATH`.
pub open spec fn path_probe_label() -> Seq<char> {
    "ousia-reason (PATH)"@
}

/// Where the reasoner is: the explicit path when given (an error when it does
/// not exist), else what the `PATH` lookup printed, trimmed (an error when the
/// lookup failed or printed nothing).
pub open spec fn located(
    r: Result<String, AtscaleError>,
    explicit: Option<Seq<char>>,
    explicit_exists: bool,
    lookup: Option<Seq<char>>,
) -> bool {
    match explicit {
        Some(p) => if explicit_exists {
            r matches Ok(s) && s@ == p
        } else {
            r matches Err(AtscaleError::ReasonerNotFound { tried }) && tried@ == p
        },
        None => match lookup {
            Some(out) if trimmed(out).len() > 0 => r matches Ok(s) && s@ == trimmed(out),
            _ => r matches Err(AtscaleError::ReasonerNotFound { tried }) && tried@ == path_probe_label(),
        },
    }
}

/// Locate the `ousia-reason` binary: `explicit` is the `--reasoner` path and
/// whether it exists; `lookup` is what a successful `which ousia-reason`
/// printed (`None` when it failed). The error names the `--reasoner` flag.
pub fn locate_reasoner(explicit: Option<&str>, explicit_exists: bool, lookup: Option<&str>) -> (r: Result<String, AtscaleError>)
    ensures
        located(
            r,
            match explicit {
                Some(p) => Some(p@),
                None => None,
            },
            explicit_exists,
            match lookup {
                Some(o) => Some(o@),
                None => None,
            },
        ),
{
    match explicit {
        Some(p) => {
            if explicit_exists {
                Ok(owned(p))
            } else {
                Err(AtscaleError::ReasonerNotFound { tried: owned(p) })
            }
        },
        None => {
            match lookup {
                Some(out) => {
                    let t = trim(out);
                    if t.unicode_len() > 0 {
                        return Ok(owned(t));
                    }
                },
                None => {},
            }
            Err(AtscaleError::ReasonerNotFound { tried: owned("ousia-reason (PATH)") })
        },
    }
}

/// What a run of the reasoner printed means before its JSON is read: nothing
/// on standard output is a failure, reported with the trimmed standard error,
/// or with the exit code (-1 when there is none) if that is empty too.
pub open spec fn output_checked(
    r: Result<(), AtscaleError>,
    stdout: Seq<char>,
    stderr: Seq<char>,
    exit_code: Option<i32>,
) -> bool {
    if trimmed(stdout).len() == 0 {
        r matches Err(AtscaleError::ReasonerFailed(m)) && m@ == if trimmed(stderr).len() > 0 {
            trimmed(stderr)
        } else {
            "ousia-reason exited "@ + signed_decimal(
                match exit_code {
                    Some(c) => c as int,
                    None => -1,
                },
            ) + " with no output"@
        }
    } else {
        r is Ok
    }
}

/// Checks the output of a reasoner run (see `output_checked`).
pub fn check_reasoner_output(stdout: &str, stderr: &str, exit_code: Option<i32>) -> (r: Result<(), AtscaleError>)
    ensures
        output_checked(r, stdout@, stderr@, exit_code),
{
    if trim(stdout).unicode_len() == 0 {
        let msg = trim(stderr);
        if msg.unicode_len() > 0 {
            return Err(AtscaleError::ReasonerFailed(owned(msg)));
        }
        let code: i32 = match exit_code {
            Some(c) => c,
            None => -1,
        };
        let mut m = owned("ousia-reason exited ");
        m.append(i32_to_decimal(code).as_str());
        m.append(" with no output");
        return Err(AtscaleError::ReasonerFailed(m));
    }
    Ok(())
}

/// An explicit `--reasoner` path decides alone, whatever the `PATH` lookup
/// printed: locating gives that path when it exists and otherwise fails naming
/// it; only without an explicit path is the lookup used, and then an empty or
/// failed lookup fails naming the `PATH` probe.
pub proof fn lemma_explicit_path_decides(
    r: Result<String, AtscaleError>,
    p: Seq<char>,
    explicit_exists: bool,
    lookup: Option<Seq<char>>,
)
    requires
        located(r, Some(p), explicit_exists, lookup),
    ensures
        explicit_exists ==> r is Ok && r->Ok_0@ == p,
        !explicit_exists ==> r is Err && r->Err_0 is ReasonerNotFound && r->Err_0->tried@ == p,
{
}

/// Without an explicit path, locating gives the trimmed output of a lookup
/// that printed something other than white space, and otherwise fails naming
/// the `PATH` probe.
pub proof fn lemma_lookup_used_without_explicit(
    r: Result<String, AtscaleError>,
    explicit_exists: bool,
    lookup: Option<Seq<char>>,
)
    requires
        located(r, None, explicit_exists, lookup),
    ensures
        (lookup matches Some(out) && trimmed(out).len() > 0) ==> r is Ok && r->Ok_0@ == trimmed(lookup->Some_0),
        !(lookup matches Some(out) && trimmed(out).len() > 0) ==> r is Err && r->Err_0 is ReasonerNotFound
            && r->Err_0->tried@ == "ousia-reason (PATH)"@,
{
}

} // verus!
