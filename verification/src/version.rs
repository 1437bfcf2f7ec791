//! Semantic versions: the library's own copy of what `semver::Version`
//! holds, parsing through the `semver` crate and rendering as text.

use vstd::prelude::*;
use vstd::string::*;
use crate::error::WipError;
use crate::text::{decimal, digit_char, push_decimal};

verus! {

/// A semantic version: `major.minor.patch`, with optional pre-release and
/// build metadata identifiers (empty when absent).
#[derive(Debug, Clone)]
pub struct SemVer {
    pub major: u64,
    pub minor: u64,
    pub patch: u64,
    pub pre: String,
    pub build: String,
}

/// The mathematical value of a [`SemVer`].
pub struct SemVerView {
    pub major: u64,
    pub minor: u64,
    pub patch: u64,
    pub pre: Seq<char>,
    pub build: Seq<char>,
}

impl View for SemVer {
    type V = SemVerView;

    open spec fn view(&self) -> SemVerView {
        SemVerView {
            major: self.major,
            minor: self.minor,
            patch: self.patch,
            pre: self.pre@,
            build: self.build@,
        }
    }
}

/// What `semver::Version::parse` gives for `text`: the version, or the
/// message of its error.
pub uninterp spec fn semver_parse(text: Seq<char>) -> Result<SemVerView, Seq<char>>;

/// Calls `semver::Version::parse`. Trusted: the result is [`semver_parse`]
/// of the text: the parsed version, with its pre-release and build
/// identifiers taken as text, or the message of the error.
#[verifier::external_body]
fn semver_version_parse(text: &str) -> (r: Result<SemVer, String>)
    ensures
        r is Ok <==> semver_parse(text@) is Ok,
        r matches Ok(v) ==> (semver_parse(text@) matches Ok(d) && d == v@),
        r matches Err(m) ==> (semver_parse(text@) matches Err(d) && d == m@),
{
    match semver::Version::parse(text) {
        Ok(v) => Ok(
            SemVer {
                major: v.major,
                minor: v.minor,
                patch: v.patch,
                pre: v.pre.as_str().to_string(),
                build: v.build.as_str().to_string(),
            },
        ),
        Err(e) => Err(e.to_string()),
    }
}

/// The text form of a version, as `semver::Version`'s `Display` prints it:
/// `major.minor.patch`, then `-pre` if there is a pre-release identifier
/// and `+build` if there is build metadata.
pub open spec fn version_text(v: SemVerView) -> Seq<char> {
    decimal(v.major as nat) + seq!['.'] + decimal(v.minor as nat) + seq!['.'] + decimal(
        v.patch as nat,
    ) + (if v.pre.len() > 0 {
        seq!['-'] + v.pre
    } else {
        Seq::empty()
    }) + (if v.build.len() > 0 {
        seq!['+'] + v.build
    } else {
        Seq::empty()
    })
}

/// `c` is a decimal digit.
pub open spec fn is_digit(c: char) -> bool {
    '0' <= c <= '9'
}

/// The number that the decimal digits `s` write.
pub open spec fn digits_value(s: Seq<char>) -> nat
    decreases s.len(),
{
    if s.len() == 0 {
        0
    } else {
        10 * digits_value(s.drop_last()) + ((s.last() as u32) - ('0' as u32)) as nat
    }
}

/// `s` is a non-empty run of decimal digits.
pub open spec fn is_number_text(s: Seq<char>) -> bool {
    s.len() > 0 && forall|j: int| 0 <= j < s.len() ==> is_digit(#[trigger] s[j])
}

proof fn lemma_digit_value(d: int)
    requires
        0 <= d < 10,
    ensures
        is_digit(digit_char(d)),
        ((digit_char(d) as u32) - ('0' as u32)) as nat == d,
{
    let ds = seq!['0', '1', '2', '3', '4', '5', '6', '7', '8', '9'];
    assert(digit_char(d) == ds[d]);
    if d == 0 {
        assert(ds[0] == '0');
    } else if d == 1 {
        assert(ds[1] == '1');
    } else if d == 2 {
        assert(ds[2] == '2');
    } else if d == 3 {
        assert(ds[3] == '3');
    } else if d == 4 {
        assert(ds[4] == '4');
    } else if d == 5 {
        assert(ds[5] == '5');
    } else if d == 6 {
        assert(ds[6] == '6');
    } else if d == 7 {
        assert(ds[7] == '7');
    } else if d == 8 {
        assert(ds[8] == '8');
    } else {
        assert(ds[9] == '9');
    }
}

proof fn lemma_decimal_reads_back(n: nat)
    ensures
        is_number_text(decimal(n)),
        digits_value(decimal(n)) == n,
    decreases n,
{
    if n < 10 {
        lemma_digit_value(n as int);
        assert(decimal(n) == seq![digit_char(n as int)]);
        assert(seq![digit_char(n as int)].drop_last() =~= Seq::<char>::empty());
        assert(decimal(n).last() == digit_char(n as int));
        assert(digits_value(decimal(n)) == 10 * digits_value(decimal(n).drop_last()) + ((
        digit_char(n as int) as u32) - ('0' as u32)) as nat);
        assert(digits_value(Seq::<char>::empty()) == 0);
    } else {
        lemma_digit_value((n % 10) as int);
        lemma_decimal_reads_back(n / 10);
        let s = decimal(n);
        let last = digit_char((n % 10) as int);
        assert(s == decimal(n / 10) + seq![last]);
        assert(s.drop_last() =~= decimal(n / 10));
        assert(s.last() == last);
        assert(digits_value(s) == 10 * digits_value(s.drop_last()) + ((last as u32) - ('0' as u32)) as nat);
        assert(n == 10 * (n / 10) + n % 10);
        assert forall|j: int| 0 <= j < s.len() implies is_digit(#[trigger] s[j]) by {
            if j < s.len() - 1 {
                assert(s[j] == decimal(n / 10)[j]);
            }
        }
    }
}

/// The text of a version reads back as the version: three runs of decimal
/// digits separated by dots whose values are the major, minor and patch
/// numbers, then `-` and the pre-release identifiers if there are any, then
/// `+` and the build metadata if there is any.
pub proof fn lemma_version_text_reads_back(v: SemVerView)
    ensures
        exists|a: Seq<char>, b: Seq<char>, c: Seq<char>|
            {
                &&& is_number_text(a) && digits_value(a) == v.major
                &&& is_number_text(b) && digits_value(b) == v.minor
                &&& is_number_text(c) && digits_value(c) == v.patch
                &&& version_text(v) == a + seq!['.'] + b + seq!['.'] + c + (if v.pre.len() > 0 {
                    seq!['-'] + v.pre
                } else {
                    Seq::<char>::empty()
                }) + (if v.build.len() > 0 {
                    seq!['+'] + v.build
                } else {
                    Seq::<char>::empty()
                })
            },
{
    lemma_decimal_reads_back(v.major as nat);
    lemma_decimal_reads_back(v.minor as nat);
    lemma_decimal_reads_back(v.patch as nat);
    let a = decimal(v.major as nat);
    let b = decimal(v.minor as nat);
    let c = decimal(v.patch as nat);
    assert(is_number_text(a) && digits_value(a) == v.major);
    assert(is_number_text(b) && digits_value(b) == v.minor);
    assert(is_number_text(c) && digits_value(c) == v.patch);
    assert(version_text(v) == a + seq!['.'] + b + seq!['.'] + c + (if v.pre.len() > 0 {
        seq!['-'] + v.pre
    } else {
        Seq::<char>::empty()
    }) + (if v.build.len() > 0 {
        seq!['+'] + v.build
    } else {
        Seq::<char>::empty()
    }));
}

impl SemVer {
    /// Parses a semantic version; the error carries the `semver` crate's message.
    pub fn parse(text: &str) -> (r: Result<SemVer, WipError>)
        ensures
            r is Ok <==> semver_parse(text@) is Ok,
            r matches Ok(v) ==> semver_parse(text@) == Ok::<SemVerView, Seq<char>>(v@),
            r matches Err(e) ==> (e matches WipError::SemVer(m) && semver_parse(text@) == Err::<
                SemVerView,
                Seq<char>,
            >(m@)),
    {
        match semver_version_parse(text) {
            Ok(v) => Ok(v),
            Err(msg) => Err(WipError::SemVer(msg)),
        }
    }

    /// A copy of the version.
    pub fn duplicate(&self) -> (r: SemVer)
        ensures
            r@ == self@,
    {
        SemVer {
            major: self.major,
            minor: self.minor,
            patch: self.patch,
            pre: self.pre.clone(),
            build: self.build.clone(),
        }
    }

    /// The version as text (what `Display` prints).
    pub fn to_string(&self) -> (r: String)
        ensures
            r@ == version_text(self@),
    {
        let mut out = String::new();
        proof {
            reveal_strlit(".");
            reveal_strlit("-");
            reveal_strlit("+");
        }
        push_decimal(&mut out, self.major);
        out.append(".");
        push_decimal(&mut out, self.minor);
        out.append(".");
        push_decimal(&mut out, self.patch);
        if !self.pre.as_str().is_empty() {
            out.append("-");
            out.append(self.pre.as_str());
        }
        if !self.build.as_str().is_empty() {
            out.append("+");
            out.append(self.build.as_str());
        }
        assert(out@ =~= version_text(self@));
        out
    }
}

} // verus!
