//! SDK version information and API compatibility checking.

use vstd::prelude::*;

use crate::error::Error;
use crate::text::{
    lemma_find_is, lemma_split_on_len, parse_uint_region, parses_as_uint, split_on, uint_val,
};
use vstd::string::{StrSliceExecFns, StringExecFns};

verus! {

/// Current SDK version.
pub const SDK_VERSION: &'static str = "0.0.0";

/// Minimum API version this SDK supports.
pub const MIN_API_VERSION: &'static str = "0.0.0";

/// Maximum API version this SDK was built against.
pub const MAX_KNOWN_API_VERSION: &'static str = "0.0.0";

/// The part of a version before its first `-`.
pub open spec fn version_head(v: Seq<char>) -> Seq<char> {
    split_on(v, '-')[0]
}

/// The prerelease tag: the part between the first and second `-`, if the
/// version has one at all.
pub open spec fn prerelease_of(v: Seq<char>) -> Option<Seq<char>> {
    if split_on(v, '-').len() >= 2 {
        Some(split_on(v, '-')[1])
    } else {
        None
    }
}

/// The pieces that parse as `u32`, in order: unparseable pieces are
/// silently skipped.
pub open spec fn nums_of(pieces: Seq<Seq<char>>) -> Seq<u32>
    decreases pieces.len(),
{
    if pieces.len() == 0 {
        Seq::empty()
    } else if parses_as_uint(pieces[0], u32::MAX as int) {
        seq![uint_val(pieces[0]) as u32] + nums_of(pieces.drop_first())
    } else {
        nums_of(pieces.drop_first())
    }
}

/// The numeric components of a version: its head split on dots, each
/// piece kept when it parses as a `u32`.
pub open spec fn version_nums(v: Seq<char>) -> Seq<u32> {
    nums_of(split_on(version_head(v), '.'))
}

/// The `i`-th number, or zero where the version has none.
pub open spec fn nth_or_zero(ns: Seq<u32>, i: int) -> u32 {
    if i < ns.len() {
        ns[i]
    } else {
        0
    }
}

proof fn lemma_nums_of_step(head: Seq<char>, tail: Seq<Seq<char>>)
    ensures
        nums_of(seq![head] + tail) == if parses_as_uint(head, u32::MAX as int) {
            seq![uint_val(head) as u32] + nums_of(tail)
        } else {
            nums_of(tail)
        },
{
    let ps = seq![head] + tail;
    assert(ps[0] == head);
    assert(ps.drop_first() =~= tail);
}

/// Parse a semver-like version string into components.
///
/// Returns (major, minor, patch, prerelease): the numbers are the dotted
/// pieces before the first `-` that parse as `u32`, missing or
/// unparseable pieces read as zero, and the prerelease is the text
/// between the first and second `-`.
pub fn parse_version<'a>(version: &'a str) -> (r: (u32, u32, u32, Option<&'a str>))
    ensures
        r.0 == nth_or_zero(version_nums(version@), 0),
        r.1 == nth_or_zero(version_nums(version@), 1),
        r.2 == nth_or_zero(version_nums(version@), 2),
        ({
            match (r.3, prerelease_of(version@)) {
                (Some(p), Some(q)) => p@ == q,
                (None, None) => true,
                _ => false,
            }
        }),
{
    let n = version.unicode_len();
    // the end of the numeric head: the first `-`, or the whole string
    let mut hn: usize = 0;
    while hn < n && version.get_char(hn) != '-'
        invariant
            hn <= n,
            n == version@.len(),
            forall|k: int| 0 <= k < hn ==> version@[k] != '-',
        decreases n - hn,
    {
        hn = hn + 1;
    }
    proof {
        lemma_find_is(version@, '-', hn as int);
    }
    // the prerelease: between the first `-` and the `-` after it
    let prerelease: Option<&'a str> = if hn < n {
        let mut p2 = hn + 1;
        while p2 < n && version.get_char(p2) != '-'
            invariant
                hn < p2 <= n,
                n == version@.len(),
                forall|k: int| hn < k < p2 ==> version@[k] != '-',
            decreases n - p2,
        {
            p2 = p2 + 1;
        }
        let ghost rest = version@.skip(hn + 1);
        proof {
            assert forall|k: int| 0 <= k < p2 - hn - 1 implies rest[k] != '-' by {
                assert(rest[k] == version@[hn + 1 + k]);
            }
            if p2 < n {
                assert(rest[p2 - hn - 1] == version@[p2 as int]);
            }
            lemma_find_is(rest, '-', p2 - hn - 1);
            lemma_split_on_len(rest.skip(p2 - hn - 1 + 1), '-');
            // the second token of the split is the region [hn + 1, p2)
            if p2 < n {
                assert(split_on(rest, '-')[0] == rest.take(p2 - hn - 1));
            }
            assert(split_on(version@, '-') == seq![version@.take(hn as int)] + split_on(
                rest,
                '-',
            ));
            assert(split_on(version@, '-')[1] == split_on(rest, '-')[0]);
            if p2 == n {
                assert(split_on(rest, '-') == seq![rest]);
                assert(rest =~= version@.subrange(hn + 1, p2 as int));
            } else {
                assert(rest.take(p2 - hn - 1) =~= version@.subrange(hn + 1, p2 as int));
            }
        }
        Some(version.substring_char(hn + 1, p2))
    } else {
        proof {
            lemma_split_on_len(version@, '-');
        }
        None
    };
    // the numbers: the head split on dots, pieces that parse kept
    let ghost hseq = version_head(version@);
    proof {
        if hn < n {
            assert(hseq == version@.take(hn as int));
        } else {
            assert(split_on(version@, '-') == seq![version@]);
            assert(version@.take(hn as int) =~= version@);
        }
    }
    let mut vals: Vec<u32> = Vec::new();
    let mut pos: usize = 0;
    proof {
        assert(hseq.skip(0) =~= hseq);
        assert(vals@ + nums_of(split_on(hseq, '.')) =~= version_nums(version@));
    }
    loop
        invariant_except_break
            n == version@.len(),
            hn <= n,
            pos <= hn,
            hseq == version_head(version@),
            hseq == version@.take(hn as int),
            hseq.len() == hn,
            vals@ + nums_of(split_on(hseq.skip(pos as int), '.')) == version_nums(version@),
        ensures
            vals@ == version_nums(version@),
        decreases hn - pos,
    {
        let mut j = pos;
        while j < hn && version.get_char(j) != '.'
            invariant
                pos <= j <= hn <= n,
                n == version@.len(),
                forall|k: int| pos <= k < j ==> version@[k] != '.',
            decreases hn - j,
        {
            j = j + 1;
        }
        let ghost rest = hseq.skip(pos as int);
        proof {
            assert forall|k: int| 0 <= k < j - pos implies rest[k] != '.' by {
                assert(rest[k] == hseq[pos + k]);
                assert(hseq[pos + k] == version@[pos + k]);
            }
            if j < hn {
                assert(rest[j - pos] == hseq[j as int]);
                assert(hseq[j as int] == version@[j as int]);
            }
            lemma_find_is(rest, '.', j - pos);
            assert(rest.take(j - pos) =~= version@.subrange(pos as int, j as int));
        }
        let piece = parse_uint_region(version, pos, j, 4294967295u64);
        let ghost vals0 = vals@;
        match piece {
            Some(v) => {
                vals.push(v as u32);
            },
            None => {},
        }
        if j == hn {
            proof {
                assert(split_on(rest, '.') == seq![rest]);
                assert(rest =~= version@.subrange(pos as int, j as int));
                assert(seq![rest] + Seq::<Seq<char>>::empty() =~= seq![rest]);
                lemma_nums_of_step(rest, Seq::<Seq<char>>::empty());
                assert(nums_of(Seq::<Seq<char>>::empty()) =~= Seq::<u32>::empty());
                if parses_as_uint(rest, u32::MAX as int) {
                    assert(vals@ =~= vals0 + seq![uint_val(rest) as u32]);
                    assert(seq![uint_val(rest) as u32] + Seq::<u32>::empty() =~= seq![
                        uint_val(rest) as u32,
                    ]);
                    assert(vals@ =~= vals0 + nums_of(split_on(rest, '.')));
                } else {
                    assert(vals@ =~= vals0 + nums_of(split_on(rest, '.')));
                }
                assert(vals@ == version_nums(version@));
            }
            break ;
        }
        proof {
            assert(split_on(rest, '.') == seq![rest.take(j - pos)] + split_on(
                rest.skip(j - pos + 1),
                '.',
            ));
            assert(rest.skip(j - pos + 1) =~= hseq.skip(j + 1));
            lemma_nums_of_step(rest.take(j - pos), split_on(rest.skip(j - pos + 1), '.'));
            if parses_as_uint(rest.take(j - pos), u32::MAX as int) {
                assert(vals@ =~= vals0 + seq![uint_val(rest.take(j - pos)) as u32]);
                assert(vals@ + nums_of(split_on(hseq.skip(j + 1), '.')) =~= vals0 + (seq![
                    uint_val(rest.take(j - pos)) as u32,
                ] + nums_of(split_on(hseq.skip(j + 1), '.'))));
            }
        }
        pos = j + 1;
    }
    let ghost nums = version_nums(version@);
    proof {
        assert(vals@ == nums);
    }
    let major = if vals.len() >= 1 {
        vals[0]
    } else {
        0
    };
    let minor = if vals.len() >= 2 {
        vals[1]
    } else {
        0
    };
    let patch = if vals.len() >= 3 {
        vals[2]
    } else {
        0
    };
    (major, minor, patch, prerelease)
}

/// How two versions compare, major first, then minor, then patch;
/// prerelease tags are not compared.
pub open spec fn spec_compare_versions(a: Seq<char>, b: Seq<char>) -> int {
    let am = nth_or_zero(version_nums(a), 0);
    let bm = nth_or_zero(version_nums(b), 0);
    let an = nth_or_zero(version_nums(a), 1);
    let bn = nth_or_zero(version_nums(b), 1);
    let ap = nth_or_zero(version_nums(a), 2);
    let bp = nth_or_zero(version_nums(b), 2);
    if am != bm {
        if am < bm {
            -1
        } else {
            1
        }
    } else if an != bn {
        if an < bn {
            -1
        } else {
            1
        }
    } else if ap != bp {
        if ap < bp {
            -1
        } else {
            1
        }
    } else {
        0
    }
}

/// Compare two semver-like versions.
///
/// Returns `-1` if `a < b`, `0` if they are equal, `1` if `a > b`.
pub fn compare_versions(a: &str, b: &str) -> (r: i8)
    ensures
        r as int == spec_compare_versions(a@, b@),
{
    let (a_major, a_minor, a_patch, _) = parse_version(a);
    let (b_major, b_minor, b_patch, _) = parse_version(b);
    if a_major != b_major {
        return if a_major < b_major {
            -1
        } else {
            1
        };
    }
    if a_minor != b_minor {
        return if a_minor < b_minor {
            -1
        } else {
            1
        };
    }
    if a_patch != b_patch {
        return if a_patch < b_patch {
            -1
        } else {
            1
        };
    }
    0
}

/// Check if an API version is compatible with this SDK.
///
/// Returns the unsupported-version error, naming the versions involved,
/// exactly when the API version is older than the minimum supported one.
pub fn check_api_version_compatibility(api_version: &str) -> (r: Result<(), Error>)
    ensures
        r is Ok <==> spec_compare_versions(api_version@, MIN_API_VERSION@) >= 0,
        (match r {
            Err(e) => e matches Error::UnsupportedApiVersion {
                api_version: av,
                min_version: mv,
                max_known_version: kv,
            } && av@ == api_version@ && mv@ == MIN_API_VERSION@ && kv@ == MAX_KNOWN_API_VERSION@,
            Ok(u) => u == (),
        }),
{
    if compare_versions(api_version, MIN_API_VERSION) < 0 {
        return Err(Error::UnsupportedApiVersion {
            api_version: String::from_str(api_version),
            min_version: String::from_str(MIN_API_VERSION),
            max_known_version: String::from_str(MAX_KNOWN_API_VERSION),
        });
    }
    Ok(())
}

/// What the User-Agent of the SDK's requests says: the SDK name and
/// version, the host platform, and any caller-supplied suffix.
pub open spec fn spec_user_agent(os: Seq<char>, arch: Seq<char>, suffix: Option<Seq<char>>) -> Seq<
    char,
> {
    let base = "Refyne-SDK-Rust/"@ + SDK_VERSION@ + " ("@ + os + "; "@ + arch + ")"@;
    match suffix {
        Some(s) => base + " "@ + s,
        None => base,
    }
}

/// Build the User-Agent string for SDK requests. The operating system and
/// architecture names are supplied by the caller, which reads them from
/// the build target.
pub fn build_user_agent(os: &str, arch: &str, suffix: Option<&str>) -> (ua: String)
    ensures
        suffix is None ==> ua@ == spec_user_agent(os@, arch@, None),
        suffix matches Some(s) ==> ua@ == spec_user_agent(os@, arch@, Some(s@)),
{
    let mut ua = String::from_str("Refyne-SDK-Rust/");
    ua.append(SDK_VERSION);
    ua.append(" (");
    ua.append(os);
    ua.append("; ");
    ua.append(arch);
    ua.append(")");
    if let Some(s) = suffix {
        ua.append(" ");
        ua.append(s);
    }
    ua
}

} // verus!
