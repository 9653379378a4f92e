//! Semantic versions: parsing through the SemVer parser, and a verified
//! implementation of SemVer precedence.

use vstd::prelude::*;

use crate::bytes::{pieces_view, split_bytes, split_sep};

verus! {

/// The byte that separates pre-release identifiers.
pub const DOT: u8 = 46;

/// What the strict SemVer parser makes of a text: `None` where it refuses
/// it, otherwise the numeric triple and the raw pre-release part's bytes.
pub uninterp spec fn semver_of(s: Seq<char>) -> Option<(u64, u64, u64, Seq<u8>)>;

pub open spec fn is_digit(b: u8) -> bool {
    48 <= b <= 57
}

pub open spec fn is_ident_byte(b: u8) -> bool {
    is_digit(b) || (65 <= b <= 90) || (97 <= b <= 122) || b == 45
}

pub open spec fn is_numeric_ident(id: Seq<u8>) -> bool {
    forall|k: int| 0 <= k < id.len() ==> is_digit(#[trigger] id[k])
}

/// The identifiers of a pre-release part: dot-separated, none where the
/// part is empty.
pub open spec fn pre_idents(pre: Seq<u8>) -> Seq<Seq<u8>> {
    if pre.len() == 0 {
        Seq::empty()
    } else {
        split_sep(pre, DOT)
    }
}

/// What SemVer guarantees of each pre-release identifier: nonempty, ASCII
/// alphanumerics and hyphens, and no leading zero on a numeric identifier.
pub open spec fn ident_wellformed(id: Seq<u8>) -> bool {
    id.len() >= 1 && (forall|k: int| 0 <= k < id.len() ==> is_ident_byte(#[trigger] id[k])) && (
    is_numeric_ident(id) && id.len() > 1 ==> id[0] != 48)
}

pub open spec fn pre_wellformed(pre: Seq<u8>) -> bool {
    forall|k: int| 0 <= k < pre_idents(pre).len() ==> ident_wellformed(#[trigger] pre_idents(pre)[k])
}

/// The raw pieces of a parsed version, as the parser hands them over.
pub struct RawVersion {
    pub major: u64,
    pub minor: u64,
    pub patch: u64,
    pub pre: Vec<u8>,
    pub text: String,
}

/// Relies on `semver::Version::parse`: strict SemVer 2.0.0 parsing, a
/// function of the text alone. On success the numeric triple and the
/// pre-release part are handed back, along with the text itself; the parser
/// guarantees the pre-release part's identifiers are well formed.
#[verifier::external_body]
fn semver_parse(s: &str) -> (r: Option<RawVersion>)
    ensures
        r is Some <==> semver_of(s@) is Some,
        r matches Some(v) ==> semver_of(s@) matches Some(p) && v.major == p.0 && v.minor == p.1
            && v.patch == p.2 && v.pre@ == p.3 && v.text@ == s@ && pre_wellformed(p.3),
{
    match semver::Version::parse(s) {
        Ok(v) => Some(
            RawVersion {
                major: v.major,
                minor: v.minor,
                patch: v.patch,
                pre: v.pre.as_str().as_bytes().to_vec(),
                text: s.to_string(),
            },
        ),
        Err(_) => None,
    }
}

/// One semantic version: its canonical text, as found in the path, and the
/// parsed pieces that precedence is decided by. Build metadata takes no part
/// in precedence and stays inside the text.
#[derive(Debug)]
pub struct Version {
    /// The text the version was parsed from.
    pub text: String,
    pub major: u64,
    pub minor: u64,
    pub patch: u64,
    /// The pre-release identifiers, already split at the dots.
    pub pre: Vec<Vec<u8>>,
}

impl Version {
    /// The pre-release identifiers as sequences.
    pub open spec fn ids(&self) -> Seq<Seq<u8>> {
        pieces_view(self.pre@)
    }

    /// The parsed pieces agree with what the parser makes of the text.
    pub open spec fn wf(&self) -> bool {
        match semver_of(self.text@) {
            Option::Some(p) => self.major == p.0 && self.minor == p.1 && self.patch == p.2
                && self.ids() == pre_idents(p.3) && pre_wellformed(p.3),
            Option::None => false,
        }
    }

    /// Parses a version from its text; succeeds exactly where strict SemVer
    /// parsing does.
    pub fn parse(s: &str) -> (r: Option<Version>)
        ensures
            r is Some <==> semver_of(s@) is Some,
            r matches Some(v) ==> v.wf() && v.text@ == s@,
    {
        match semver_parse(s) {
            None => None,
            Some(raw) => {
                let pre: Vec<Vec<u8>> = if raw.pre.len() == 0 {
                    Vec::new()
                } else {
                    split_bytes(raw.pre.as_slice(), DOT)
                };
                proof {
                    if raw.pre@.len() == 0 {
                        assert(pieces_view(Seq::<Vec<u8>>::empty()) =~= Seq::<Seq<u8>>::empty());
                    }
                }
                Some(
                    Version {
                        text: raw.text,
                        major: raw.major,
                        minor: raw.minor,
                        patch: raw.patch,
                        pre,
                    },
                )
            },
        }
    }
}

/// The outcome of comparing two values.
#[derive(Clone, Copy, Debug, PartialEq, Eq, Structural)]
pub enum Rel {
    Lt,
    Eq,
    Gt,
}

pub open spec fn flip(r: Rel) -> Rel {
    match r {
        Rel::Lt => Rel::Gt,
        Rel::Eq => Rel::Eq,
        Rel::Gt => Rel::Lt,
    }
}

/// Plain byte-wise lexicographic comparison.
pub open spec fn bytes_cmp(a: Seq<u8>, b: Seq<u8>) -> Rel
    decreases a.len(),
{
    if a.len() == 0 && b.len() == 0 {
        Rel::Eq
    } else if a.len() == 0 {
        Rel::Lt
    } else if b.len() == 0 {
        Rel::Gt
    } else if a[0] < b[0] {
        Rel::Lt
    } else if a[0] > b[0] {
        Rel::Gt
    } else {
        bytes_cmp(a.skip(1), b.skip(1))
    }
}

/// SemVer's comparison of two pre-release identifiers: numeric identifiers
/// rank below alphanumeric ones and compare numerically — for identifiers
/// without leading zeros, that is by length first, then byte-wise —
/// alphanumeric ones compare in ASCII order.
pub open spec fn ident_cmp(a: Seq<u8>, b: Seq<u8>) -> Rel {
    if is_numeric_ident(a) && is_numeric_ident(b) {
        if a.len() < b.len() {
            Rel::Lt
        } else if a.len() > b.len() {
            Rel::Gt
        } else {
            bytes_cmp(a, b)
        }
    } else if is_numeric_ident(a) {
        Rel::Lt
    } else if is_numeric_ident(b) {
        Rel::Gt
    } else {
        bytes_cmp(a, b)
    }
}

/// SemVer's comparison of two pre-release parts: identifier by identifier
/// from the left; a part that runs out first ranks lower.
pub open spec fn pre_cmp(a: Seq<Seq<u8>>, b: Seq<Seq<u8>>) -> Rel
    decreases a.len(),
{
    if a.len() == 0 && b.len() == 0 {
        Rel::Eq
    } else if a.len() == 0 {
        Rel::Lt
    } else if b.len() == 0 {
        Rel::Gt
    } else {
        match ident_cmp(a[0], b[0]) {
            Rel::Eq => pre_cmp(a.skip(1), b.skip(1)),
            o => o,
        }
    }
}

/// SemVer precedence: the numeric triple decides first; a release outranks
/// every pre-release of the same triple; two pre-releases compare by their
/// identifiers. Build metadata is ignored.
pub open spec fn version_cmp(a: &Version, b: &Version) -> Rel {
    if a.major < b.major {
        Rel::Lt
    } else if a.major > b.major {
        Rel::Gt
    } else if a.minor < b.minor {
        Rel::Lt
    } else if a.minor > b.minor {
        Rel::Gt
    } else if a.patch < b.patch {
        Rel::Lt
    } else if a.patch > b.patch {
        Rel::Gt
    } else if a.ids().len() == 0 && b.ids().len() == 0 {
        Rel::Eq
    } else if a.ids().len() == 0 {
        Rel::Gt
    } else if b.ids().len() == 0 {
        Rel::Lt
    } else {
        pre_cmp(a.ids(), b.ids())
    }
}

pub open spec fn version_le(a: &Version, b: &Version) -> bool {
    version_cmp(a, b) != Rel::Gt
}

/// Ten to the `n`th.
pub open spec fn pow10(n: nat) -> int
    decreases n,
{
    if n == 0 {
        1
    } else {
        10 * pow10((n - 1) as nat)
    }
}

/// The number a numeric identifier denotes in decimal.
pub open spec fn num_val(s: Seq<u8>) -> int
    decreases s.len(),
{
    if s.len() == 0 {
        0
    } else {
        (s[0] - 48) * pow10((s.len() - 1) as nat) + num_val(s.skip(1))
    }
}

proof fn lemma_pow10_pos(n: nat)
    ensures
        pow10(n) >= 1,
    decreases n,
{
    if n > 0 {
        lemma_pow10_pos((n - 1) as nat);
    }
}

proof fn lemma_pow10_mono(m: nat, n: nat)
    requires
        m <= n,
    ensures
        pow10(m) <= pow10(n),
    decreases n,
{
    if m < n {
        lemma_pow10_mono(m, (n - 1) as nat);
        lemma_pow10_pos((n - 1) as nat);
    }
}

proof fn lemma_num_val_bounds(s: Seq<u8>)
    requires
        is_numeric_ident(s),
    ensures
        0 <= num_val(s) < pow10(s.len()),
    decreases s.len(),
{
    if s.len() == 0 {
    } else {
        let d = s[0] - 48;
        let p = pow10((s.len() - 1) as nat);
        assert(is_numeric_ident(s.skip(1))) by {
            assert(forall|k: int| 0 <= k < s.skip(1).len() ==> s.skip(1)[k] == s[k + 1]);
        }
        lemma_num_val_bounds(s.skip(1));
        lemma_pow10_pos((s.len() - 1) as nat);
        assert(0 <= d <= 9);
        assert(d * p <= 9 * p) by (nonlinear_arith)
            requires
                0 <= d <= 9,
                p >= 1,
        ;
        assert(d * p >= 0) by (nonlinear_arith)
            requires
                d >= 0,
                p >= 1,
        ;
        assert(num_val(s) <= 9 * p + (p - 1));
        assert(pow10(s.len()) == 10 * p);
    }
}

proof fn lemma_num_val_leading(s: Seq<u8>)
    requires
        is_numeric_ident(s),
        s.len() >= 1,
        s[0] != 48,
    ensures
        num_val(s) >= pow10((s.len() - 1) as nat),
{
    let d = s[0] - 48;
    let p = pow10((s.len() - 1) as nat);
    assert(is_numeric_ident(s.skip(1))) by {
        assert(forall|k: int| 0 <= k < s.skip(1).len() ==> s.skip(1)[k] == s[k + 1]);
    }
    lemma_num_val_bounds(s.skip(1));
    lemma_pow10_pos((s.len() - 1) as nat);
    assert(d >= 1);
    assert(d * p >= p) by (nonlinear_arith)
        requires
            d >= 1,
            p >= 1,
    ;
}

proof fn lemma_lex_num_val(a: Seq<u8>, b: Seq<u8>)
    requires
        is_numeric_ident(a),
        is_numeric_ident(b),
        a.len() == b.len(),
        bytes_cmp(a, b) == Rel::Lt,
    ensures
        num_val(a) < num_val(b),
    decreases a.len(),
{
    assert(is_numeric_ident(a.skip(1)) && is_numeric_ident(b.skip(1))) by {
        assert(forall|k: int| 0 <= k < a.skip(1).len() ==> a.skip(1)[k] == a[k + 1]);
        assert(forall|k: int| 0 <= k < b.skip(1).len() ==> b.skip(1)[k] == b[k + 1]);
    }
    let p = pow10((a.len() - 1) as nat);
    if a[0] == b[0] {
        lemma_lex_num_val(a.skip(1), b.skip(1));
    } else {
        assert(a[0] < b[0]);
        lemma_num_val_bounds(a.skip(1));
        lemma_num_val_bounds(b.skip(1));
        lemma_pow10_pos((a.len() - 1) as nat);
        let da = a[0] - 48;
        let db = b[0] - 48;
        assert(db * p >= da * p + p) by (nonlinear_arith)
            requires
                db >= da + 1,
                p >= 1,
        ;
    }
}

/// For SemVer's numeric identifiers — digit strings without a leading zero —
/// the comparison by length and then byte order is exactly the comparison of
/// the numbers they denote, however long they are.
pub proof fn lemma_numeric_ident_order(a: Seq<u8>, b: Seq<u8>)
    requires
        is_numeric_ident(a),
        is_numeric_ident(b),
        ident_wellformed(a),
        ident_wellformed(b),
    ensures
        ident_cmp(a, b) == Rel::Lt <==> num_val(a) < num_val(b),
        ident_cmp(a, b) == Rel::Eq <==> num_val(a) == num_val(b),
{
    if a.len() < b.len() {
        lemma_num_val_bounds(a);
        lemma_num_val_leading(b);
        lemma_pow10_mono(a.len(), (b.len() - 1) as nat);
        assert(num_val(a) < num_val(b));
    } else if a.len() > b.len() {
        lemma_num_val_bounds(b);
        lemma_num_val_leading(a);
        lemma_pow10_mono(b.len(), (a.len() - 1) as nat);
        assert(num_val(b) < num_val(a));
    } else {
        lemma_bytes_cmp_eq(a, b);
        lemma_bytes_cmp_flip(a, b);
        match bytes_cmp(a, b) {
            Rel::Lt => {
                lemma_lex_num_val(a, b);
            },
            Rel::Eq => {},
            Rel::Gt => {
                lemma_lex_num_val(b, a);
            },
        }
    }
}

proof fn lemma_bytes_cmp_eq(a: Seq<u8>, b: Seq<u8>)
    ensures
        (bytes_cmp(a, b) == Rel::Eq) <==> a == b,
    decreases a.len(),
{
    if a.len() == 0 || b.len() == 0 {
        if a.len() == 0 && b.len() == 0 {
            assert(a =~= b);
        } else if a == b {
            assert(a.len() == b.len());
        }
    } else {
        lemma_bytes_cmp_eq(a.skip(1), b.skip(1));
        if bytes_cmp(a, b) == Rel::Eq {
            assert(a[0] == b[0]);
            assert(a.skip(1) == b.skip(1));
            assert(a =~= b) by {
                assert(forall|k: int|
                    1 <= k < a.len() ==> #[trigger] a[k] == a.skip(1)[k - 1] && b[k] == b.skip(
                        1,
                    )[k - 1]);
            }
        }
        if a == b {
            assert(a.skip(1) =~= b.skip(1));
        }
    }
}

proof fn lemma_bytes_cmp_flip(a: Seq<u8>, b: Seq<u8>)
    ensures
        bytes_cmp(b, a) == flip(bytes_cmp(a, b)),
    decreases a.len(),
{
    if a.len() > 0 && b.len() > 0 {
        lemma_bytes_cmp_flip(a.skip(1), b.skip(1));
    }
}

proof fn lemma_bytes_cmp_lt_trans(a: Seq<u8>, b: Seq<u8>, c: Seq<u8>)
    requires
        bytes_cmp(a, b) == Rel::Lt,
        bytes_cmp(b, c) == Rel::Lt,
    ensures
        bytes_cmp(a, c) == Rel::Lt,
    decreases a.len(),
{
    if a.len() == 0 {
    } else {
        if a[0] == b[0] && b[0] == c[0] {
            lemma_bytes_cmp_lt_trans(a.skip(1), b.skip(1), c.skip(1));
        }
    }
}

proof fn lemma_ident_cmp_eq(a: Seq<u8>, b: Seq<u8>)
    ensures
        (ident_cmp(a, b) == Rel::Eq) <==> a == b,
{
    lemma_bytes_cmp_eq(a, b);
}

proof fn lemma_ident_cmp_flip(a: Seq<u8>, b: Seq<u8>)
    ensures
        ident_cmp(b, a) == flip(ident_cmp(a, b)),
{
    lemma_bytes_cmp_flip(a, b);
}

proof fn lemma_ident_cmp_lt_trans(a: Seq<u8>, b: Seq<u8>, c: Seq<u8>)
    requires
        ident_cmp(a, b) == Rel::Lt,
        ident_cmp(b, c) == Rel::Lt,
    ensures
        ident_cmp(a, c) == Rel::Lt,
{
    if is_numeric_ident(a) && is_numeric_ident(b) && is_numeric_ident(c) {
        if a.len() == b.len() && b.len() == c.len() {
            lemma_bytes_cmp_lt_trans(a, b, c);
        }
    } else if !is_numeric_ident(a) {
        lemma_bytes_cmp_lt_trans(a, b, c);
    }
}

proof fn lemma_pre_cmp_eq(a: Seq<Seq<u8>>, b: Seq<Seq<u8>>)
    ensures
        (pre_cmp(a, b) == Rel::Eq) <==> a == b,
    decreases a.len(),
{
    if a.len() == 0 || b.len() == 0 {
        if a.len() == 0 && b.len() == 0 {
            assert(a =~= b);
        } else if a == b {
            assert(a.len() == b.len());
        }
    } else {
        lemma_ident_cmp_eq(a[0], b[0]);
        lemma_pre_cmp_eq(a.skip(1), b.skip(1));
        if pre_cmp(a, b) == Rel::Eq {
            assert(a =~= b) by {
                assert(forall|k: int|
                    1 <= k < a.len() ==> #[trigger] a[k] == a.skip(1)[k - 1] && b[k] == b.skip(
                        1,
                    )[k - 1]);
            }
        }
        if a == b {
            assert(a.skip(1) =~= b.skip(1));
        }
    }
}

proof fn lemma_pre_cmp_flip(a: Seq<Seq<u8>>, b: Seq<Seq<u8>>)
    ensures
        pre_cmp(b, a) == flip(pre_cmp(a, b)),
    decreases a.len(),
{
    if a.len() > 0 && b.len() > 0 {
        lemma_ident_cmp_flip(a[0], b[0]);
        lemma_ident_cmp_eq(a[0], b[0]);
        if ident_cmp(a[0], b[0]) == Rel::Eq {
            lemma_pre_cmp_flip(a.skip(1), b.skip(1));
        }
    }
}

proof fn lemma_pre_cmp_lt_trans(a: Seq<Seq<u8>>, b: Seq<Seq<u8>>, c: Seq<Seq<u8>>)
    requires
        pre_cmp(a, b) == Rel::Lt,
        pre_cmp(b, c) == Rel::Lt,
    ensures
        pre_cmp(a, c) == Rel::Lt,
    decreases a.len(),
{
    if a.len() == 0 {
    } else {
        lemma_ident_cmp_eq(a[0], b[0]);
        lemma_ident_cmp_eq(b[0], c[0]);
        match ident_cmp(a[0], b[0]) {
            Rel::Lt => {
                match ident_cmp(b[0], c[0]) {
                    Rel::Lt => {
                        lemma_ident_cmp_lt_trans(a[0], b[0], c[0]);
                    },
                    Rel::Eq => {},
                    Rel::Gt => {},
                }
            },
            Rel::Eq => {},
            Rel::Gt => {},
        }
        if ident_cmp(a[0], b[0]) == Rel::Eq && ident_cmp(b[0], c[0]) == Rel::Eq {
            lemma_pre_cmp_lt_trans(a.skip(1), b.skip(1), c.skip(1));
        }
    }
}

/// Precedence comparison is antisymmetric: comparing the other way around
/// flips the outcome.
pub proof fn lemma_version_cmp_flip(a: &Version, b: &Version)
    ensures
        version_cmp(b, a) == flip(version_cmp(a, b)),
{
    lemma_pre_cmp_flip(a.ids(), b.ids());
}

/// Precedence is transitive in its non-strict form: the order the buckets
/// are sorted into is a total order.
pub proof fn lemma_version_le_trans(a: &Version, b: &Version, c: &Version)
    requires
        version_le(a, b),
        version_le(b, c),
    ensures
        version_le(a, c),
{
    lemma_pre_cmp_eq(a.ids(), b.ids());
    lemma_pre_cmp_eq(b.ids(), c.ids());
    lemma_pre_cmp_eq(a.ids(), c.ids());
    if version_cmp(a, b) == Rel::Lt && version_cmp(b, c) == Rel::Lt {
        if a.major == b.major && b.major == c.major && a.minor == b.minor && b.minor == c.minor
            && a.patch == b.patch && b.patch == c.patch && a.ids().len() > 0 && b.ids().len() > 0
            && c.ids().len() > 0 && pre_cmp(a.ids(), b.ids()) == Rel::Lt && pre_cmp(
            b.ids(),
            c.ids(),
        ) == Rel::Lt {
            lemma_pre_cmp_lt_trans(a.ids(), b.ids(), c.ids());
        }
    }
}

/// Precedence is total: of any two versions, one is less than or equal to
/// the other.
pub proof fn lemma_version_le_total(a: &Version, b: &Version)
    ensures
        version_le(a, b) || version_le(b, a),
{
    lemma_version_cmp_flip(a, b);
}

fn is_numeric(a: &Vec<u8>) -> (r: bool)
    ensures
        r == is_numeric_ident(a@),
{
    let mut i: usize = 0;
    while i < a.len()
        invariant
            i <= a@.len(),
            forall|k: int| 0 <= k < i ==> is_digit(#[trigger] a@[k]),
        decreases a@.len() - i,
    {
        let b = a[i];
        if b < 48 || b > 57 {
            assert(!is_digit(a@[i as int]));
            return false;
        }
        i = i + 1;
    }
    true
}

fn cmp_bytes(a: &Vec<u8>, b: &Vec<u8>) -> (r: Rel)
    ensures
        r == bytes_cmp(a@, b@),
{
    let mut i: usize = 0;
    proof {
        assert(a@.skip(0) =~= a@);
        assert(b@.skip(0) =~= b@);
    }
    while i < a.len() && i < b.len()
        invariant
            i <= a@.len(),
            i <= b@.len(),
            bytes_cmp(a@, b@) == bytes_cmp(a@.skip(i as int), b@.skip(i as int)),
        decreases a@.len() - i,
    {
        proof {
            assert(a@.skip(i as int)[0] == a@[i as int]);
            assert(b@.skip(i as int)[0] == b@[i as int]);
        }
        if a[i] < b[i] {
            return Rel::Lt;
        }
        if a[i] > b[i] {
            return Rel::Gt;
        }
        proof {
            assert(a@.skip(i as int).skip(1) =~= a@.skip(i as int + 1));
            assert(b@.skip(i as int).skip(1) =~= b@.skip(i as int + 1));
        }
        i = i + 1;
    }
    proof {
        if i == a@.len() {
            assert(a@.skip(i as int) =~= Seq::<u8>::empty());
        }
        if i == b@.len() {
            assert(b@.skip(i as int) =~= Seq::<u8>::empty());
        }
    }
    if a.len() == b.len() {
        Rel::Eq
    } else if a.len() < b.len() {
        Rel::Lt
    } else {
        Rel::Gt
    }
}

fn cmp_ident(a: &Vec<u8>, b: &Vec<u8>) -> (r: Rel)
    ensures
        r == ident_cmp(a@, b@),
{
    let na = is_numeric(a);
    let nb = is_numeric(b);
    if na && nb {
        if a.len() < b.len() {
            Rel::Lt
        } else if a.len() > b.len() {
            Rel::Gt
        } else {
            cmp_bytes(a, b)
        }
    } else if na {
        Rel::Lt
    } else if nb {
        Rel::Gt
    } else {
        cmp_bytes(a, b)
    }
}

fn cmp_pre(a: &Vec<Vec<u8>>, b: &Vec<Vec<u8>>) -> (r: Rel)
    ensures
        r == pre_cmp(pieces_view(a@), pieces_view(b@)),
{
    let ghost av = pieces_view(a@);
    let ghost bv = pieces_view(b@);
    let mut i: usize = 0;
    proof {
        assert(av.skip(0) =~= av);
        assert(bv.skip(0) =~= bv);
    }
    while i < a.len() && i < b.len()
        invariant
            i <= a@.len(),
            i <= b@.len(),
            av == pieces_view(a@),
            bv == pieces_view(b@),
            pre_cmp(av, bv) == pre_cmp(av.skip(i as int), bv.skip(i as int)),
        decreases a@.len() - i,
    {
        proof {
            assert(av.skip(i as int)[0] == av[i as int]);
            assert(bv.skip(i as int)[0] == bv[i as int]);
        }
        let c = cmp_ident(&a[i], &b[i]);
        match c {
            Rel::Eq => {},
            _ => {
                return c;
            },
        }
        proof {
            assert(av.skip(i as int).skip(1) =~= av.skip(i as int + 1));
            assert(bv.skip(i as int).skip(1) =~= bv.skip(i as int + 1));
        }
        i = i + 1;
    }
    proof {
        if i == a@.len() {
            assert(av.skip(i as int) =~= Seq::<Seq<u8>>::empty());
        }
        if i == b@.len() {
            assert(bv.skip(i as int) =~= Seq::<Seq<u8>>::empty());
        }
    }
    if a.len() == b.len() {
        Rel::Eq
    } else if a.len() < b.len() {
        Rel::Lt
    } else {
        Rel::Gt
    }
}

/// Compares two versions by SemVer precedence.
pub fn version_compare(a: &Version, b: &Version) -> (r: Rel)
    ensures
        r == version_cmp(a, b),
{
    if a.major < b.major {
        return Rel::Lt;
    }
    if a.major > b.major {
        return Rel::Gt;
    }
    if a.minor < b.minor {
        return Rel::Lt;
    }
    if a.minor > b.minor {
        return Rel::Gt;
    }
    if a.patch < b.patch {
        return Rel::Lt;
    }
    if a.patch > b.patch {
        return Rel::Gt;
    }
    if a.pre.len() == 0 && b.pre.len() == 0 {
        return Rel::Eq;
    }
    if a.pre.len() == 0 {
        return Rel::Gt;
    }
    if b.pre.len() == 0 {
        return Rel::Lt;
    }
    cmp_pre(&a.pre, &b.pre)
}

} // verus!
