//! Target PHP language version.
//!
//! Used by the analyzer and stub loader to make version-conditional decisions
//! (e.g. filtering stub symbols by `@since`/`@removed` markers). The type is
//! `Copy` and stores only major/minor — patch level is parsed but discarded,
//! since language features track the minor release.
use vstd::prelude::*;
use crate::text::{
    all_digits, decimal, digits_value, find_char, find_char_in, is_ws, lead_ws, lemma_decimal,
    lemma_find_char_at, lemma_lead_ws_char, lemma_trail_ws_char, parse_u8, parse_u8_at,
    trail_ws, trim, trim_bounds, chars_of, string_from_chars, u8_decimal,
};

verus! {

#[derive(Debug, Clone, Copy, PartialEq, Eq, Structural, PartialOrd, Ord, Hash)]
pub struct PhpVersion {
    major: u8,
    minor: u8,
}

/// Error for a version string that is not `MAJOR[.MINOR[...]]`; carries the
/// rejected input.
#[derive(Debug)]
pub struct ParsePhpVersionError(pub String);

impl View for PhpVersion {
    type V = (u8, u8);

    closed spec fn view(&self) -> (u8, u8) {
        (self.major, self.minor)
    }
}

/// `a` is an earlier release than `b`: by major, then by minor.
pub open spec fn precedes(a: (u8, u8), b: (u8, u8)) -> bool {
    a.0 < b.0 || (a.0 == b.0 && a.1 < b.1)
}

/// The newest release the analyzer knows about.
pub open spec fn latest_version() -> (u8, u8) {
    (8, 5)
}

/// What `PhpVersion::from_str` yields for `s`: the text is trimmed, split on
/// `.`, the first piece is the major and the second (if any) the minor, each
/// read as `u8` would read it; anything after a second `.` is ignored.
pub open spec fn parse_version(s: Seq<char>) -> Option<(u8, u8)> {
    let t = trim(s);
    let i = find_char(t, '.');
    match parse_u8(t.take(i as int)) {
        None => None,
        Some(major) => if i == t.len() {
            Some((major, 0u8))
        } else {
            let rest = t.skip(i as int + 1);
            match parse_u8(rest.take(find_char(rest, '.') as int)) {
                Some(minor) => Some((major, minor)),
                None => None,
            }
        },
    }
}

/// `MAJOR.MINOR`, as the version is displayed.
pub open spec fn version_text(v: (u8, u8)) -> Seq<char> {
    decimal(v.0 as nat).push('.') + decimal(v.1 as nat)
}

/// The single header byte: major in the high nibble, minor in the low one.
pub open spec fn cache_byte_of(v: (u8, u8)) -> int {
    ((v.0 as int) * 16) % 256 + (v.1 as int) % 16
}

/// A `@since`/`@removed` marker counts only when it parses and names a
/// plausible PHP major (4 up to the latest); library versions are ignored.
pub open spec fn php_marker(s: Seq<char>) -> Option<(u8, u8)> {
    match parse_version(s) {
        Some(v) => if 4 <= v.0 && v.0 <= latest_version().0 {
            Some(v)
        } else {
            None
        },
        None => None,
    }
}

pub open spec fn since_admits(v: (u8, u8), since: Option<Seq<char>>) -> bool {
    match since {
        Some(s) => match php_marker(s) {
            Some(b) => !precedes(v, b),
            None => true,
        },
        None => true,
    }
}

pub open spec fn removed_admits(v: (u8, u8), removed: Option<Seq<char>>) -> bool {
    match removed {
        Some(s) => match php_marker(s) {
            Some(b) => precedes(v, b),
            None => true,
        },
        None => true,
    }
}

pub open spec fn from_admits(v: (u8, u8), from: Option<Seq<char>>) -> bool {
    match from {
        Some(s) => match parse_version(s) {
            Some(b) => !precedes(v, b),
            None => true,
        },
        None => true,
    }
}

pub open spec fn to_admits(v: (u8, u8), to: Option<Seq<char>>) -> bool {
    match to {
        Some(s) => match parse_version(s) {
            Some(b) => !precedes(b, v),
            None => true,
        },
        None => true,
    }
}

pub open spec fn opt_view(s: Option<&str>) -> Option<Seq<char>> {
    match s {
        Some(t) => Some(t@),
        None => None,
    }
}

impl PhpVersion {
    pub fn new(major: u8, minor: u8) -> (r: Self)
        ensures
            r@ == (major, minor),
    {
        Self { major, minor }
    }

    /// The newest release the analyzer knows about (8.5).
    pub fn latest() -> (r: Self)
        ensures
            r@ == latest_version(),
    {
        Self { major: 8, minor: 5 }
    }

    pub fn major(self) -> (r: u8)
        ensures
            r == self@.0,
    {
        self.major
    }

    pub fn minor(self) -> (r: u8)
        ensures
            r == self@.1,
    {
        self.minor
    }

    /// Whether `self` is an earlier release than `other`.
    pub fn precedes(self, other: Self) -> (r: bool)
        ensures
            r == precedes(self@, other@),
    {
        self.major < other.major || (self.major == other.major && self.minor < other.minor)
    }

    /// Encode the version into the single byte the stub-cache header
    /// carries. Layout: `(major << 4) | (minor & 0x0F)`. PHP minor versions
    /// stay well below 16 so they fit unambiguously in the low nibble.
    pub fn cache_byte(self) -> (r: u8)
        ensures
            r as int == cache_byte_of(self@),
    {
        let hi: u8 = self.major << 4u8;
        let lo: u8 = self.minor & 0x0Fu8;
        let major = self.major;
        let minor = self.minor;
        assert(hi == ((major as int) * 16) % 256) by (bit_vector)
            requires
                hi == major << 4u8,
        ;
        assert(lo == (minor as int) % 16) by (bit_vector)
            requires
                lo == minor & 0x0Fu8,
        ;
        assert((hi | lo) == hi + lo) by (bit_vector)
            requires
                hi == major << 4u8,
                lo == minor & 0x0Fu8,
        ;
        hi | lo
    }

    /// Parse `MAJOR`, `MAJOR.MINOR` or `MAJOR.MINOR.PATCH` (surrounding
    /// whitespace allowed); the patch, and anything after it, is discarded.
    pub fn parse(s: &str) -> (r: Result<Self, ParsePhpVersionError>)
        ensures
            match parse_version(s@) {
                Some(v) => r matches Ok(p) && p@ == v,
                None => r matches Err(e) && e.0@ == s@,
            },
    {
        let cs = chars_of(s);
        let (start, end) = trim_bounds(cs.as_slice());
        let dot = find_char_in(cs.as_slice(), start, end, '.');
        let ghost t = trim(s@);
        proof {
            assert(t == cs@.subrange(start as int, end as int));
            assert(t.take(dot - start) == cs@.subrange(start as int, dot as int));
        }
        let major = match parse_u8_at(cs.as_slice(), start, dot) {
            Some(m) => m,
            None => {
                return Err(ParsePhpVersionError(s.to_owned()));
            },
        };
        if dot == end {
            return Ok(Self::new(major, 0));
        }
        let dot2 = find_char_in(cs.as_slice(), dot + 1, end, '.');
        proof {
            let rest = t.skip(dot - start + 1);
            assert(rest == cs@.subrange(dot + 1, end as int));
            assert(rest.take(dot2 - (dot + 1)) == cs@.subrange(dot + 1, dot2 as int));
        }
        match parse_u8_at(cs.as_slice(), dot + 1, dot2) {
            Some(minor) => Ok(Self::new(major, minor)),
            None => Err(ParsePhpVersionError(s.to_owned())),
        }
    }

    /// `MAJOR.MINOR`, e.g. `8.3`.
    pub fn to_string(&self) -> (r: String)
        ensures
            r@ == version_text(self@),
    {
        let mut out = u8_decimal(self.major);
        out.push('.');
        let minor = u8_decimal(self.minor);
        let mut i: usize = 0;
        let ghost base = out@;
        while i < minor.len()
            invariant
                i <= minor@.len(),
                out@ == base + minor@.take(i as int),
            decreases minor.len() - i,
        {
            out.push(minor[i]);
            i = i + 1;
            proof {
                assert(minor@.take(i as int) == minor@.take(i - 1).push(minor@[i - 1]));
            }
        }
        proof {
            assert(minor@.take(i as int) == minor@);
        }
        string_from_chars(out.as_slice())
    }

    /// Return `true` if a stub symbol annotated with `@since`/`@removed` is
    /// available at this target version.
    ///
    /// `@since X.Y` excludes targets `< X.Y`. `@removed X.Y` excludes
    /// targets `>= X.Y` (the symbol is gone *as of* that release). Tags that
    /// fail to parse, or whose major version is outside the plausible PHP
    /// range, are ignored — some extension stubs (newrelic, mongodb) put
    /// library versions there (`@since 9.12`, `@since 1.17`) which must not
    /// drive PHP-version filtering.
    pub fn includes_symbol(self, since: Option<&str>, removed: Option<&str>) -> (r: bool)
        ensures
            r == (since_admits(self@, opt_view(since)) && removed_admits(self@, opt_view(removed))),
    {
        if let Some(s) = since {
            if let Some(b) = Self::php_marker(s) {
                if self.precedes(b) {
                    return false;
                }
            }
        }
        if let Some(s) = removed {
            if let Some(b) = Self::php_marker(s) {
                if !self.precedes(b) {
                    return false;
                }
            }
        }
        true
    }

    /// Whether `self` falls within the **inclusive** `[from, to]` range used
    /// by phpstorm-stubs' `#[PhpStormStubsElementAvailable($from, $to)]`. A
    /// `None` bound is open on that side; a bound that fails to parse is
    /// ignored (treated as absent).
    pub fn in_range(self, from: Option<&str>, to_inclusive: Option<&str>) -> (r: bool)
        ensures
            r == (from_admits(self@, opt_view(from)) && to_admits(self@, opt_view(to_inclusive))),
    {
        if let Some(s) = from {
            if let Ok(b) = Self::parse(s) {
                if self.precedes(b) {
                    return false;
                }
            }
        }
        if let Some(s) = to_inclusive {
            if let Ok(b) = Self::parse(s) {
                if b.precedes(self) {
                    return false;
                }
            }
        }
        true
    }

    fn php_marker(s: &str) -> (r: Option<Self>)
        ensures
            match php_marker(s@) {
                Some(v) => r matches Some(p) && p@ == v,
                None => r is None,
            },
    {
        match Self::parse(s) {
            Ok(v) => if v.major >= 4 && v.major <= 8 {
                Some(v)
            } else {
                None
            },
            Err(_) => None,
        }
    }
}

impl Default for PhpVersion {
    fn default() -> (r: Self)
        ensures
            r@ == latest_version(),
    {
        Self::latest()
    }
}

/// Displaying a version and reading it back gives the same version.
pub proof fn lemma_display_parse_roundtrip(v: PhpVersion)
    ensures
        parse_version(version_text(v@)) == Some(v@),
{
    let a = decimal(v@.0 as nat);
    let b = decimal(v@.1 as nat);
    let s = version_text(v@);
    lemma_decimal(v@.0 as nat);
    lemma_decimal(v@.1 as nat);
    assert(s[0] == a[0]);
    assert(s[s.len() - 1] == b[b.len() - 1]);
    lemma_lead_ws_char(s, 0);
    lemma_trail_ws_char(s, 0);
    assert(trim(s) =~= s);
    assert forall|i: int| 0 <= i < a.len() implies #[trigger] s[i] != '.' by {
        assert(s[i] == a[i]);
    }
    lemma_find_char_at(s, '.', a.len() as int);
    assert(s.take(a.len() as int) =~= a);
    let rest = s.skip(a.len() as int + 1);
    assert(rest =~= b);
    lemma_find_char_at(rest, '.', b.len() as int);
    assert(rest.take(b.len() as int) =~= b);
    assert(parse_u8(a) == Some(v@.0));
    assert(parse_u8(b) == Some(v@.1));
}

/// Two versions whose major and minor are below 16 share a cache byte
/// only when they are the same version.
pub proof fn lemma_cache_byte_injective(a: (u8, u8), b: (u8, u8))
    requires
        a.0 < 16 && a.1 < 16,
        b.0 < 16 && b.1 < 16,
        cache_byte_of(a) == cache_byte_of(b),
    ensures
        a == b,
{
}

/// Release order is a strict total order.
pub proof fn lemma_precedes_total_order(a: (u8, u8), b: (u8, u8), c: (u8, u8))
    ensures
        !precedes(a, a),
        precedes(a, b) && precedes(b, c) ==> precedes(a, c),
        a != b ==> precedes(a, b) || precedes(b, a),
        precedes(a, b) ==> !precedes(b, a),
{
}

/// Once a symbol is available (its `@since` satisfied), it stays available
/// for every later target; once removed, it stays removed.
pub proof fn lemma_includes_symbol_monotone(
    v: (u8, u8),
    w: (u8, u8),
    since: Option<Seq<char>>,
    removed: Option<Seq<char>>,
)
    requires
        precedes(v, w),
    ensures
        since_admits(v, since) ==> since_admits(w, since),
        !removed_admits(v, removed) ==> !removed_admits(w, removed),
{
}

impl std::str::FromStr for PhpVersion {
    type Err = ParsePhpVersionError;

    fn from_str(s: &str) -> (r: Result<Self, Self::Err>)
        ensures
            match parse_version(s@) {
                Some(v) => r matches Ok(p) && p@ == v,
                None => r matches Err(e) && e.0@ == s@,
            },
    {
        PhpVersion::parse(s)
    }
}

} // verus!
