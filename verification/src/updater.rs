//! Choosing the release to update to: the highest semantic version newer
//! than the running one.
use crate::text::{self, decimal};
use vstd::prelude::*;

verus! {

/// A published release newer than the running program.
#[derive(Debug, Clone)]
pub struct ReleaseInfo {
    /// Its version, such as `0.1.0`.
    pub version: String,
    /// Its release notes (markdown).
    pub body: String,
}

/// A release as the release listing gives it.
#[derive(Debug, Clone)]
pub struct ReleaseCandidate {
    /// The tag's version, possibly with a leading `v`.
    pub version: String,
    /// The release notes, if any.
    pub body: Option<String>,
}

/// `semver::Version`, a parsed semantic version.
#[verifier::external_type_specification]
#[verifier::external_body]
pub struct ExSemverVersion(semver::Version);

/// What `semver::Version::parse` gives for a text: major, minor, patch,
/// pre-release and build metadata of the version, or the text of the
/// error.
pub uninterp spec fn semver_parse(text: Seq<char>) -> Result<(u64, u64, u64, Seq<char>, Seq<char>), Seq<char>>;

/// Whether the version parsed from `a` is greater than the one parsed from
/// `b` in `semver::Version`'s total order.
pub uninterp spec fn semver_greater(a: Seq<char>, b: Seq<char>) -> bool;

/// A version parsed by the semver crate, with the text it came from.
pub struct ParsedVersion {
    source: String,
    major: u64,
    minor: u64,
    patch: u64,
    pre: String,
    build: String,
    raw: semver::Version,
}

impl ParsedVersion {
    /// The text the version was parsed from.
    pub closed spec fn source(&self) -> Seq<char> {
        self.source@
    }

    /// Major, minor, patch, pre-release and build metadata.
    pub closed spec fn parts(&self) -> (u64, u64, u64, Seq<char>, Seq<char>) {
        (self.major, self.minor, self.patch, self.pre@, self.build@)
    }
}

/// `semver::Version::parse`: on success the version's numbers, its
/// pre-release and build metadata as text, and the text it was parsed
/// from; on failure the error's message.
#[verifier::external_body]
fn parse_version(text: &str) -> (r: Result<ParsedVersion, String>)
    ensures
        match r {
            Ok(v) => semver_parse(text@) == Ok::<(u64, u64, u64, Seq<char>, Seq<char>), Seq<char>>(v.parts())
                && v.source() == text@,
            Err(m) => semver_parse(text@) == Err::<(u64, u64, u64, Seq<char>, Seq<char>), Seq<char>>(m@),
        },
{
    match semver::Version::parse(text) {
        Ok(v) => Ok(ParsedVersion {
            source: text.to_string(),
            major: v.major,
            minor: v.minor,
            patch: v.patch,
            pre: v.pre.as_str().to_string(),
            build: v.build.as_str().to_string(),
            raw: v,
        }),
        Err(e) => Err(e.to_string()),
    }
}

/// Lexicographic `>` on (major, minor, patch).
pub open spec fn triple_greater(a: (u64, u64, u64, Seq<char>, Seq<char>), b: (u64, u64, u64, Seq<char>, Seq<char>)) -> bool {
    a.0 > b.0 || (a.0 == b.0 && (a.1 > b.1 || (a.1 == b.1 && a.2 > b.2)))
}

/// `>` on `semver::Version`. As the crate documents, major, minor and
/// patch are compared first, as a triple of numbers; the comparison of
/// equal triples (by pre-release, then build metadata) is left to the
/// name.
#[verifier::external_body]
fn version_greater(a: &ParsedVersion, b: &ParsedVersion) -> (r: bool)
    ensures
        r == semver_greater(a.source(), b.source()),
        (a.parts().0, a.parts().1, a.parts().2) != (b.parts().0, b.parts().1, b.parts().2) ==> r == triple_greater(
            a.parts(),
            b.parts(),
        ),
{
    a.raw > b.raw
}

/// How a version is written: `major.minor.patch`, then `-pre` and `+build`
/// where present.
pub open spec fn version_text(p: (u64, u64, u64, Seq<char>, Seq<char>)) -> Seq<char> {
    decimal(p.0 as nat) + "."@ + decimal(p.1 as nat) + "."@ + decimal(p.2 as nat) + (if p.3.len() > 0 {
        "-"@ + p.3
    } else {
        seq![]
    }) + (if p.4.len() > 0 {
        "+"@ + p.4
    } else {
        seq![]
    })
}

fn format_version(v: &ParsedVersion) -> (s: String)
    ensures
        s@ == version_text(v.parts()),
{
    let mut out: Vec<char> = Vec::new();
    text::push_u64(&mut out, v.major);
    text::push_str(&mut out, ".");
    text::push_u64(&mut out, v.minor);
    text::push_str(&mut out, ".");
    text::push_u64(&mut out, v.patch);
    let pre = text::chars_of(v.pre.as_str());
    if pre.len() > 0 {
        text::push_str(&mut out, "-");
        text::push_chars(&mut out, &pre);
    }
    let build = text::chars_of(v.build.as_str());
    if build.len() > 0 {
        text::push_str(&mut out, "+");
        text::push_chars(&mut out, &build);
    }
    assert(out@ =~= version_text(v.parts()));
    text::string_from_chars(&out)
}

/// The number of leading `v`s.
pub open spec fn leading_v(s: Seq<char>) -> nat
    decreases s.len(),
{
    if s.len() > 0 && s[0] == 'v' {
        1 + leading_v(s.drop_first())
    } else {
        0
    }
}

/// `s` without its leading `v`s (`trim_start_matches('v')`).
pub open spec fn strip_v(s: Seq<char>) -> Seq<char> {
    s.skip(leading_v(s) as int)
}

proof fn lemma_leading_v(s: Seq<char>, i: int)
    requires
        0 <= i <= s.len(),
        forall|j: int| 0 <= j < i ==> s[j] == 'v',
    ensures
        i < s.len() && s[i] != 'v' ==> leading_v(s) == i,
        i == s.len() ==> leading_v(s) == i,
    decreases i,
{
    if i > 0 {
        let t = s.drop_first();
        assert forall|j: int| 0 <= j < i - 1 implies t[j] == 'v' by {
            assert(t[j] == s[j + 1]);
        }
        lemma_leading_v(t, i - 1);
        if i < s.len() {
            assert(t[i - 1] == s[i]);
        }
    }
}

fn strip_leading_v(s: &str) -> (r: String)
    ensures
        r@ == strip_v(s@),
{
    let cs = text::chars_of(s);
    let mut i: usize = 0;
    while i < cs.len() && cs[i] == 'v'
        invariant
            i <= cs.len(),
            cs@ == s@,
            forall|j: int| 0 <= j < i ==> cs@[j] == 'v',
        decreases cs.len() - i,
    {
        i = i + 1;
    }
    proof {
        lemma_leading_v(s@, i as int);
    }
    let rest = text::slice_chars(&cs, i, cs.len());
    assert(rest@ =~= strip_v(s@));
    text::string_from_chars(&rest)
}

/// The release notes, or nothing.
pub open spec fn body_text(b: Option<String>) -> Seq<char> {
    match b {
        Some(s) => s@,
        None => seq![],
    }
}

/// Of the releases whose version parses and is newer than `current`, the
/// highest (the earliest of equal ones): the text it was parsed from, its
/// parts and its notes.
pub open spec fn best_release(current: Seq<char>, rs: Seq<ReleaseCandidate>) -> Option<(Seq<char>, (u64, u64, u64, Seq<char>, Seq<char>), Seq<char>)>
    decreases rs.len(),
{
    if rs.len() == 0 {
        None
    } else {
        let prev = best_release(current, rs.drop_last());
        let t = strip_v(rs.last().version@);
        match semver_parse(t) {
            Err(_) => prev,
            Ok(p) => if semver_greater(t, current) {
                match prev {
                    Some(b) => if semver_greater(t, b.0) {
                        Some((t, p, body_text(rs.last().body)))
                    } else {
                        prev
                    },
                    None => Some((t, p, body_text(rs.last().body))),
                }
            } else {
                prev
            },
        }
    }
}

/// The chosen release is one of the listed ones, its version parses, and
/// it is newer than the running version and than every earlier listed
/// candidate it displaced.
pub proof fn lemma_best_release_is_newer(current: Seq<char>, rs: Seq<ReleaseCandidate>)
    ensures
        best_release(current, rs) matches Some(b) ==> {
            &&& semver_greater(b.0, current)
            &&& semver_parse(b.0) == Ok::<(u64, u64, u64, Seq<char>, Seq<char>), Seq<char>>(b.1)
            &&& exists|j: int| 0 <= j < rs.len() && strip_v((#[trigger] rs[j]).version@) == b.0 && body_text(rs[j].body) == b.2
        },
    decreases rs.len(),
{
    if rs.len() > 0 {
        let p = rs.drop_last();
        lemma_best_release_is_newer(current, p);
        if best_release(current, rs) == best_release(current, p) {
            if let Some(b) = best_release(current, p) {
                let j = choose|j: int| 0 <= j < p.len() && strip_v((#[trigger] p[j]).version@) == b.0 && body_text(p[j].body) == b.2;
                assert(rs[j] == p[j]);
            }
        } else {
            let j = rs.len() - 1;
            assert(strip_v(rs[j].version@) == best_release(current, rs).unwrap().0);
        }
    }
}

/// What an update check finds for the running version `current` among
/// the listed releases.
pub open spec fn update_spec(current: Seq<char>, rs: Seq<ReleaseCandidate>) -> Result<Option<(Seq<char>, Seq<char>)>, Seq<char>> {
    match semver_parse(current) {
        Err(e) => Err("invalid current version: "@ + e),
        Ok(_) => match best_release(current, rs) {
            Some(b) => Ok(Some((version_text(b.1), b.2))),
            None => Ok(None),
        },
    }
}

/// The release to update to: among the listed releases whose version (a
/// leading `v` removed) parses, the highest one newer than `current`.
/// `None` when there is none; an error when `current` is no version.
pub fn select_update(current: &str, releases: &[ReleaseCandidate]) -> (r: Result<Option<ReleaseInfo>, String>)
    ensures
        match (r, update_spec(current@, releases@)) {
            (Ok(Some(info)), Ok(Some(want))) => info.version@ == want.0 && info.body@ == want.1,
            (Ok(None), Ok(None)) => true,
            (Err(m), Err(want)) => m@ == want,
            _ => false,
        },
{
    let cur = match parse_version(current) {
        Ok(v) => v,
        Err(e) => {
            let mut m = text::lit("invalid current version: ");
            text::push_str(&mut m, e.as_str());
            return Err(text::string_from_chars(&m));
        },
    };
    let ghost rs = releases@;
    let mut best: Option<(ParsedVersion, String)> = None;
    let mut i: usize = 0;
    while i < releases.len()
        invariant
            i <= releases.len(),
            rs == releases@,
            cur.source() == current@,
            match (best, best_release(current@, rs.take(i as int))) {
                (Some(b), Some(want)) => b.0.source() == want.0 && b.0.parts() == want.1 && b.1@ == want.2,
                (None, None) => true,
                _ => false,
            },
        decreases releases.len() - i,
    {
        proof {
            assert(rs.take(i + 1).drop_last() =~= rs.take(i as int));
        }
        let t = strip_leading_v(releases[i].version.as_str());
        match parse_version(t.as_str()) {
            Ok(v) => {
                if version_greater(&v, &cur) {
                    let replace = match &best {
                        Some(b) => version_greater(&v, &b.0),
                        None => true,
                    };
                    if replace {
                        let body = match &releases[i].body {
                            Some(b) => b.clone(),
                            None => String::new(),
                        };
                        proof {
                            assert(body_text(releases@[i as int].body) == body@) by {
                                if releases@[i as int].body is None {
                                    assert(body@ =~= Seq::<char>::empty());
                                }
                            }
                        }
                        best = Some((v, body));
                    }
                }
            },
            Err(_) => {},
        }
        i = i + 1;
    }
    proof {
        assert(rs.take(rs.len() as int) =~= rs);
    }
    match best {
        Some(b) => Ok(Some(ReleaseInfo { version: format_version(&b.0), body: b.1 })),
        None => Ok(None),
    }
}

} // verus!
