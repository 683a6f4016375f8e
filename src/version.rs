//! Semantic versions as plain values, their precedence, and the choice of the
//! latest parsable version among the ones a registry reports.
use vstd::prelude::*;

verus! {

/// One dot-separated part of a pre-release tag.
#[derive(Debug, Clone)]
pub enum Identifier {
    Numeric(u64),
    /// The identifier's ASCII text, as bytes.
    AlphaNumeric(Vec<u8>),
}

/// A parsed semantic version; build metadata plays no part in precedence
/// and is not kept.
#[derive(Debug, Clone)]
pub struct Version {
    pub major: u64,
    pub minor: u64,
    pub patch: u64,
    pub pre: Vec<Identifier>,
}

/// What `semver::Version::parse` makes of a text, as plain values.
pub uninterp spec fn semver_parse(s: Seq<char>) -> Option<Version>;

/// How semver writes (`Display`) the version that it parses from a text.
pub uninterp spec fn semver_text(s: Seq<char>) -> Seq<char>;

/// Relies on `semver::Version::parse` (semver 0.9): `Ok` exactly for the texts
/// it accepts; fields and pre-release identifiers are moved over one for one,
/// and the parsed version is written out with its `Display`.
#[verifier::external_body]
pub(crate) fn parse_version(s: &str) -> (r: Option<(Version, String)>)
    ensures
        match r {
            Some((v, t)) => semver_parse(s@) == Some(v) && t@ == semver_text(s@),
            None => semver_parse(s@) is None,
        },
{
    match semver::Version::parse(s) {
        Ok(v) => Some((Version {
            major: v.major,
            minor: v.minor,
            patch: v.patch,
            pre: v.pre.iter().cloned().map(|i| match i {
                semver::Identifier::Numeric(n) => Identifier::Numeric(n),
                semver::Identifier::AlphaNumeric(t) => Identifier::AlphaNumeric(t.into_bytes()),
            }).collect(),
        }, v.to_string())),
        Err(_) => None,
    }
}

/// Lexicographic byte order, comparing from position `i` on; a proper prefix
/// comes first.
pub open spec fn bytes_lt_from(a: Seq<u8>, b: Seq<u8>, i: int) -> bool
    decreases a.len() - i,
{
    if i < 0 || i >= a.len() {
        0 <= i < b.len()
    } else if i >= b.len() {
        false
    } else if a[i] != b[i] {
        a[i] < b[i]
    } else {
        bytes_lt_from(a, b, i + 1)
    }
}

pub open spec fn ident_eq(a: Identifier, b: Identifier) -> bool {
    match (a, b) {
        (Identifier::Numeric(x), Identifier::Numeric(y)) => x == y,
        (Identifier::AlphaNumeric(x), Identifier::AlphaNumeric(y)) => x@ == y@,
        _ => false,
    }
}

/// Numeric identifiers come before alphanumeric ones; each kind is ordered
/// by value.
pub open spec fn ident_lt(a: Identifier, b: Identifier) -> bool {
    match (a, b) {
        (Identifier::Numeric(x), Identifier::Numeric(y)) => x < y,
        (Identifier::Numeric(_), Identifier::AlphaNumeric(_)) => true,
        (Identifier::AlphaNumeric(_), Identifier::Numeric(_)) => false,
        (Identifier::AlphaNumeric(x), Identifier::AlphaNumeric(y)) => bytes_lt_from(x@, y@, 0),
    }
}

/// Lexicographic order on identifier lists from position `i` on.
pub open spec fn pre_lt_from(a: Seq<Identifier>, b: Seq<Identifier>, i: int) -> bool
    decreases a.len() - i,
{
    if i < 0 || i >= a.len() {
        0 <= i < b.len()
    } else if i >= b.len() {
        false
    } else if !ident_eq(a[i], b[i]) {
        ident_lt(a[i], b[i])
    } else {
        pre_lt_from(a, b, i + 1)
    }
}

/// Semantic-version precedence: major, then minor, then patch; a version
/// without a pre-release tag ranks above one with; two tags compare
/// identifier by identifier.
pub open spec fn version_lt(a: Version, b: Version) -> bool {
    if a.major != b.major {
        a.major < b.major
    } else if a.minor != b.minor {
        a.minor < b.minor
    } else if a.patch != b.patch {
        a.patch < b.patch
    } else if a.pre@.len() == 0 {
        false
    } else if b.pre@.len() == 0 {
        true
    } else {
        pre_lt_from(a.pre@, b.pre@, 0)
    }
}

proof fn lemma_bytes_lt_trans(a: Seq<u8>, b: Seq<u8>, c: Seq<u8>, i: int)
    requires
        0 <= i,
        bytes_lt_from(a, b, i),
        bytes_lt_from(b, c, i),
    ensures
        bytes_lt_from(a, c, i),
    decreases a.len() - i,
{
    if i < a.len() && i < b.len() && i < c.len() && a[i] == b[i] && b[i] == c[i] {
        lemma_bytes_lt_trans(a, b, c, i + 1);
    }
}

proof fn lemma_ident_lt_trans(a: Identifier, b: Identifier, c: Identifier)
    requires
        ident_lt(a, b),
        ident_lt(b, c),
    ensures
        ident_lt(a, c),
{
    match (a, b, c) {
        (Identifier::AlphaNumeric(x), Identifier::AlphaNumeric(y), Identifier::AlphaNumeric(z)) => {
            lemma_bytes_lt_trans(x@, y@, z@, 0);
        },
        _ => {},
    }
}

proof fn lemma_pre_lt_trans(a: Seq<Identifier>, b: Seq<Identifier>, c: Seq<Identifier>, i: int)
    requires
        0 <= i,
        pre_lt_from(a, b, i),
        pre_lt_from(b, c, i),
    ensures
        pre_lt_from(a, c, i),
    decreases a.len() - i,
{
    if i < a.len() && i < b.len() && i < c.len() {
        if ident_eq(a[i], b[i]) && ident_eq(b[i], c[i]) {
            lemma_pre_lt_trans(a, b, c, i + 1);
        } else if !ident_eq(a[i], b[i]) && !ident_eq(b[i], c[i]) {
            lemma_ident_lt_trans(a[i], b[i], c[i]);
            lemma_ident_lt_not_eq(a[i], c[i]);
        } else {
            lemma_ident_lt_not_eq(a[i], c[i]);
        }
    }
}

proof fn lemma_ident_lt_not_eq(a: Identifier, b: Identifier)
    requires
        ident_lt(a, b),
    ensures
        !ident_eq(a, b),
{
    match (a, b) {
        (Identifier::AlphaNumeric(x), Identifier::AlphaNumeric(y)) => {
            if x@ == y@ {
                lemma_bytes_lt_irrefl(x@, y@, 0);
            }
        },
        _ => {},
    }
}

proof fn lemma_bytes_lt_irrefl(a: Seq<u8>, b: Seq<u8>, i: int)
    requires
        0 <= i,
        a == b,
    ensures
        !bytes_lt_from(a, b, i),
    decreases a.len() - i,
{
    if i < a.len() {
        lemma_bytes_lt_irrefl(a, b, i + 1);
    }
}

/// Precedence is transitive.
pub proof fn lemma_version_lt_trans(a: Version, b: Version, c: Version)
    requires
        version_lt(a, b),
        version_lt(b, c),
    ensures
        version_lt(a, c),
{
    if a.major == b.major && b.major == c.major && a.minor == b.minor && b.minor == c.minor
        && a.patch == b.patch && b.patch == c.patch && a.pre@.len() != 0 && b.pre@.len() != 0
        && c.pre@.len() != 0 {
        lemma_pre_lt_trans(a.pre@, b.pre@, c.pre@, 0);
    }
}



proof fn lemma_bytes_neg_trans(a: Seq<u8>, b: Seq<u8>, c: Seq<u8>, i: int)
    requires
        0 <= i,
        bytes_lt_from(a, c, i),
    ensures
        bytes_lt_from(a, b, i) || bytes_lt_from(b, c, i),
    decreases a.len() - i,
{
    if i < a.len() && i < b.len() && i < c.len() && a[i] == b[i] && b[i] == c[i] {
        lemma_bytes_neg_trans(a, b, c, i + 1);
    }
}

proof fn lemma_bytes_total(a: Seq<u8>, b: Seq<u8>, i: int)
    requires
        0 <= i <= a.len(),
        i <= b.len(),
        a.subrange(i, a.len() as int) != b.subrange(i, b.len() as int),
    ensures
        bytes_lt_from(a, b, i) || bytes_lt_from(b, a, i),
    decreases a.len() - i,
{
    if i < a.len() && i < b.len() && a[i] == b[i] {
        if a.subrange(i + 1, a.len() as int) == b.subrange(i + 1, b.len() as int) {
            assert(a.subrange(i, a.len() as int) =~= seq![a[i]] + a.subrange(i + 1, a.len() as int));
            assert(b.subrange(i, b.len() as int) =~= seq![b[i]] + b.subrange(i + 1, b.len() as int));
        }
        lemma_bytes_total(a, b, i + 1);
    } else if i == a.len() && i == b.len() {
        assert(a.subrange(i, a.len() as int) =~= b.subrange(i, b.len() as int));
    }
}

proof fn lemma_ident_total(x: Identifier, y: Identifier)
    ensures
        ident_eq(x, y) || ident_lt(x, y) || ident_lt(y, x),
{
    match (x, y) {
        (Identifier::AlphaNumeric(p), Identifier::AlphaNumeric(q)) => {
            if p@ != q@ {
                assert(p@.subrange(0, p@.len() as int) =~= p@);
                assert(q@.subrange(0, q@.len() as int) =~= q@);
                lemma_bytes_total(p@, q@, 0);
            }
        },
        _ => {},
    }
}

proof fn lemma_ident_neg_trans(a: Identifier, b: Identifier, c: Identifier)
    requires
        ident_lt(a, c),
    ensures
        ident_lt(a, b) || ident_lt(b, c),
{
    match (a, b, c) {
        (Identifier::AlphaNumeric(x), Identifier::AlphaNumeric(y), Identifier::AlphaNumeric(z)) => {
            lemma_bytes_neg_trans(x@, y@, z@, 0);
        },
        _ => {},
    }
}

proof fn lemma_pre_neg_trans(a: Seq<Identifier>, b: Seq<Identifier>, c: Seq<Identifier>, i: int)
    requires
        0 <= i,
        pre_lt_from(a, c, i),
    ensures
        pre_lt_from(a, b, i) || pre_lt_from(b, c, i),
    decreases a.len() - i,
{
    if i < a.len() && i < b.len() && i < c.len() {
        lemma_ident_total(a[i], b[i]);
        lemma_ident_total(b[i], c[i]);
        if ident_eq(a[i], b[i]) && ident_eq(b[i], c[i]) {
            lemma_pre_neg_trans(a, b, c, i + 1);
        } else if !ident_eq(a[i], c[i]) {
            lemma_ident_neg_trans(a[i], b[i], c[i]);
            if ident_eq(a[i], b[i]) || ident_eq(b[i], c[i]) {
                lemma_ident_lt_not_eq(a[i], c[i]);
            }
        } else {
            if ident_lt(a[i], b[i]) && ident_lt(b[i], c[i]) {
                lemma_ident_lt_trans(a[i], b[i], c[i]);
                lemma_ident_lt_not_eq(a[i], c[i]);
            }
            if ident_lt(b[i], a[i]) {
                lemma_ident_lt_not_eq(b[i], c[i]);
            }
        }
    }
}

/// If `a` precedes `c`, then any `b` is above `a` or below `c`.
pub proof fn lemma_version_neg_trans(a: Version, b: Version, c: Version)
    requires
        version_lt(a, c),
    ensures
        version_lt(a, b) || version_lt(b, c),
{
    if a.major == b.major && b.major == c.major && a.minor == b.minor && b.minor == c.minor
        && a.patch == b.patch && b.patch == c.patch && a.pre@.len() != 0 && b.pre@.len() != 0
        && c.pre@.len() != 0 {
        lemma_pre_neg_trans(a.pre@, b.pre@, c.pre@, 0);
    }
}

fn bytes_lt(a: &Vec<u8>, b: &Vec<u8>) -> (r: bool)
    ensures
        r == bytes_lt_from(a@, b@, 0),
{
    let mut i: usize = 0;
    while i < a.len() && i < b.len()
        invariant
            i <= a.len(),
            i <= b.len(),
            bytes_lt_from(a@, b@, 0) == bytes_lt_from(a@, b@, i as int),
        decreases a.len() - i,
    {
        if a[i] != b[i] {
            return a[i] < b[i];
        }
        i += 1;
    }
    i < b.len()
}

fn ident_equal(a: &Identifier, b: &Identifier) -> (r: bool)
    ensures
        r == ident_eq(*a, *b),
{
    match (a, b) {
        (Identifier::Numeric(x), Identifier::Numeric(y)) => *x == *y,
        (Identifier::AlphaNumeric(x), Identifier::AlphaNumeric(y)) => {
            let eq = x.len() == y.len() && !bytes_lt(x, y) && !bytes_lt(y, x);
            proof {
                if eq {
                    lemma_bytes_eq_of_not_lt(x@, y@, 0);
                    assert(x@ =~= x@.subrange(0, x@.len() as int));
                    assert(y@ =~= y@.subrange(0, y@.len() as int));
                }
                if x@ == y@ {
                    lemma_bytes_lt_irrefl(x@, y@, 0);
                }
            }
            eq
        },
        _ => false,
    }
}

proof fn lemma_bytes_eq_of_not_lt(a: Seq<u8>, b: Seq<u8>, i: int)
    requires
        0 <= i <= a.len(),
        a.len() == b.len(),
        !bytes_lt_from(a, b, i),
        !bytes_lt_from(b, a, i),
    ensures
        a.subrange(i, a.len() as int) == b.subrange(i, b.len() as int),
    decreases a.len() - i,
{
    if i < a.len() {
        lemma_bytes_eq_of_not_lt(a, b, i + 1);
        assert(a.subrange(i, a.len() as int) =~= seq![a[i]] + a.subrange(i + 1, a.len() as int));
        assert(b.subrange(i, b.len() as int) =~= seq![b[i]] + b.subrange(i + 1, b.len() as int));
    } else {
        assert(a.subrange(i, a.len() as int) =~= b.subrange(i, b.len() as int));
    }
}

fn ident_less(a: &Identifier, b: &Identifier) -> (r: bool)
    ensures
        r == ident_lt(*a, *b),
{
    match (a, b) {
        (Identifier::Numeric(x), Identifier::Numeric(y)) => *x < *y,
        (Identifier::Numeric(_), Identifier::AlphaNumeric(_)) => true,
        (Identifier::AlphaNumeric(_), Identifier::Numeric(_)) => false,
        (Identifier::AlphaNumeric(x), Identifier::AlphaNumeric(y)) => bytes_lt(x, y),
    }
}

fn pre_less(a: &Vec<Identifier>, b: &Vec<Identifier>) -> (r: bool)
    ensures
        r == pre_lt_from(a@, b@, 0),
{
    let mut i: usize = 0;
    while i < a.len() && i < b.len()
        invariant
            i <= a.len(),
            i <= b.len(),
            pre_lt_from(a@, b@, 0) == pre_lt_from(a@, b@, i as int),
        decreases a.len() - i,
    {
        if !ident_equal(&a[i], &b[i]) {
            return ident_less(&a[i], &b[i]);
        }
        i += 1;
    }
    i < b.len()
}

impl Version {
    /// Whether `self` has lower precedence than `other`.
    pub fn precedes(&self, other: &Version) -> (r: bool)
        ensures
            r == version_lt(*self, *other),
    {
        if self.major != other.major {
            self.major < other.major
        } else if self.minor != other.minor {
            self.minor < other.minor
        } else if self.patch != other.patch {
            self.patch < other.patch
        } else if self.pre.len() == 0 {
            false
        } else if other.pre.len() == 0 {
            true
        } else {
            pre_less(&self.pre, &other.pre)
        }
    }
}

/// The position of the highest version among the parsed ones: the first
/// position that no parsed version ranks above. `None` when nothing parsed.
pub fn pick_latest(parsed: &Vec<Option<Version>>) -> (r: Option<usize>)
    ensures
        r is None <==> (forall|k: int| 0 <= k < parsed@.len() ==> parsed@[k] is None),
        r matches Some(j) ==> {
            &&& j < parsed@.len()
            &&& parsed@[j as int] is Some
            &&& forall|k: int|
                0 <= k < parsed@.len() && parsed@[k] is Some ==> !version_lt(
                    parsed@[j as int]->0,
                    parsed@[k]->0,
                )
            &&& forall|k: int|
                0 <= k < j && parsed@[k] is Some ==> version_lt(
                    parsed@[k]->0,
                    parsed@[j as int]->0,
                )
        },
{
    let mut best: Option<usize> = None;
    let mut i: usize = 0;
    while i < parsed.len()
        invariant
            i <= parsed@.len(),
            best is None <==> (forall|k: int| 0 <= k < i ==> parsed@[k] is None),
            best matches Some(j) ==> {
                &&& j < i
                &&& parsed@[j as int] is Some
                &&& forall|k: int|
                    0 <= k < i && parsed@[k] is Some ==> !version_lt(
                        parsed@[j as int]->0,
                        parsed@[k]->0,
                    )
                &&& forall|k: int|
                    0 <= k < j && parsed@[k] is Some ==> version_lt(
                        parsed@[k]->0,
                        parsed@[j as int]->0,
                    )
            },
        decreases parsed.len() - i,
    {
        if let Some(v) = &parsed[i] {
            match best {
                None => {
                    best = Some(i);
                    proof {
                        assert forall|k: int| 0 <= k < i + 1 && parsed@[k] is Some implies !version_lt(
                            parsed@[i as int]->0,
                            parsed@[k]->0,
                        ) by {
                            if k == i {
                                lemma_version_lt_irrefl(*v);
                            }
                        }
                    }
                },
                Some(j) => {
                    let cur = parsed[j].as_ref().unwrap();
                    if cur.precedes(v) {
                        best = Some(i);
                        proof {
                            assert forall|k: int| 0 <= k < i + 1 && parsed@[k] is Some implies !version_lt(
                                parsed@[i as int]->0,
                                parsed@[k]->0,
                            ) by {
                                if k == i {
                                    lemma_version_lt_irrefl(*v);
                                } else if version_lt(*v, parsed@[k]->0) {
                                    lemma_version_lt_trans(*cur, *v, parsed@[k]->0);
                                }
                            }
                            assert forall|k: int| 0 <= k < i && parsed@[k] is Some implies version_lt(
                                parsed@[k]->0,
                                parsed@[i as int]->0,
                            ) by {
                                if k < j {
                                    lemma_version_lt_trans(parsed@[k]->0, *cur, *v);
                                } else {
                                    lemma_version_neg_trans(*cur, parsed@[k]->0, *v);
                                }
                            }
                        }
                    }
                },
            }
        }
        i += 1;
    }
    best
}

/// No version precedes itself.
pub proof fn lemma_version_lt_irrefl(a: Version)
    ensures
        !version_lt(a, a),
{
    if a.pre@.len() != 0 {
        lemma_pre_lt_irrefl(a.pre@, 0);
    }
}

proof fn lemma_pre_lt_irrefl(a: Seq<Identifier>, i: int)
    requires
        0 <= i,
    ensures
        !pre_lt_from(a, a, i),
    decreases a.len() - i,
{
    if i < a.len() {
        match a[i] {
            Identifier::AlphaNumeric(x) => {},
            _ => {},
        }
        lemma_pre_lt_irrefl(a, i + 1);
    }
}

} // verus!
