//! Patching of generated wire-protocol bindings.
//!
//! The build tool that turns protocol definitions into Rust modules
//! post-processes each generated file before copying it into the source
//! tree: files of foreign packages are skipped, relative paths into the
//! consensus-layer package are rewritten to its upstream crate name, and
//! every generated gRPC client is put behind a feature gate.  The
//! decisions and the text transformations live here; walking directories
//! and copying files stay with the build tool.

use vstd::prelude::*;
use vstd::string::StringSliceAdditionalSpecFns;

use crate::bytes_eq;

verus! {

/// The regular expression locating relative paths into the
/// consensus-layer package in generated output.
pub open spec fn ostracon_path_pattern() -> Seq<char> {
    "(super::)+ostracon"@
}

/// What such a path is rewritten to: the upstream crate's name.
pub open spec fn ostracon_crate_name() -> Seq<u8> {
    "ostracon_proto".spec_bytes()
}

/// The attribute that opens a generated gRPC client definition.
pub open spec fn tonic_client_attribute() -> Seq<u8> {
    "#[doc = r\" Generated client implementations.\"]".spec_bytes()
}

/// What that attribute becomes: the same attribute behind a feature gate
/// and its documentation gate.
pub open spec fn grpc_client_attributes() -> Seq<u8> {
    "#[cfg(feature = \"grpc\")]\n#[cfg_attr(docsrs, doc(cfg(feature = \"grpc\")))]\n#[doc = r\" Generated client implementations.\"]".spec_bytes()
}

/// True of the patterns `regex::bytes::Regex::new` accepts.
pub uninterp spec fn regex_pattern_ok(pattern: Seq<char>) -> bool;

/// What `regex::bytes::Regex::replace_all` leaves of `haystack` after
/// replacing every non-overlapping match of `pattern` with
/// `replacement`: a function of those three arguments alone.
pub uninterp spec fn regex_replaced(
    pattern: Seq<char>,
    haystack: Seq<u8>,
    replacement: Seq<u8>,
) -> Seq<u8>;

/// Relies on `regex::bytes::Regex`: `new` compiles a pattern, succeeding
/// exactly on the syntactically valid ones, and `replace_all` replaces
/// every non-overlapping match of it, deterministically in the pattern,
/// the haystack and the replacement.
#[verifier::external_body]
fn regex_replace_all(pattern: &str, haystack: &[u8], replacement: &[u8]) -> (r: Option<Vec<u8>>)
    ensures
        r is Some <==> regex_pattern_ok(pattern@),
        r matches Some(v) ==> v@ == regex_replaced(pattern@, haystack@, replacement@),
{
    match regex::bytes::Regex::new(pattern) {
        Ok(re) => Some(re.replace_all(haystack, replacement).into_owned()),
        Err(_) => None,
    }
}

/// The names of the packages whose generated files are not copied,
/// because their types come from upstream crates instead; each entry is
/// a file-name prefix, package name and dot.
pub open spec fn excluded_packages() -> Seq<Seq<u8>> {
    seq![
        "gogoproto.".spec_bytes(),
        "google.".spec_bytes(),
        "ostracon.".spec_bytes(),
    ]
}

/// Whether a generated file of this name is skipped: it belongs to one
/// of the excluded packages.
pub open spec fn excluded_spec(filename: Seq<u8>) -> bool {
    exists|i: int|
        0 <= i < excluded_packages().len() && (#[trigger] excluded_packages()[i]).is_prefix_of(
            filename,
        )
}

/// Whether `name` starts with `prefix`.
fn starts_with(name: &[u8], prefix: &[u8]) -> (r: bool)
    ensures
        r == prefix@.is_prefix_of(name@),
{
    if prefix.len() > name.len() {
        return false;
    }
    bytes_eq(vstd::slice::slice_subrange(name, 0, prefix.len()), prefix)
}

/// Decides whether a generated file is skipped rather than copied.
pub fn is_excluded_proto_file(filename: &[u8]) -> (r: bool)
    ensures
        r == excluded_spec(filename@),
{
    let r = starts_with(filename, "gogoproto.".as_bytes()) || starts_with(
        filename,
        "google.".as_bytes(),
    ) || starts_with(filename, "ostracon.".as_bytes());
    proof {
        if r {
            if "gogoproto.".spec_bytes().is_prefix_of(filename@) {
                assert(excluded_packages()[0].is_prefix_of(filename@));
            } else if "google.".spec_bytes().is_prefix_of(filename@) {
                assert(excluded_packages()[1].is_prefix_of(filename@));
            } else {
                assert(excluded_packages()[2].is_prefix_of(filename@));
            }
        } else {
            assert forall|i: int|
                0 <= i < excluded_packages().len() implies !(
            #[trigger] excluded_packages()[i]).is_prefix_of(filename@) by {
                if i == 0 {
                } else if i == 1 {
                } else {
                    assert(excluded_packages()[i] == "ostracon.".spec_bytes());
                }
            }
        }
    }
    r
}

/// `s` with every non-overlapping occurrence of `pat` replaced by `rep`,
/// scanning left to right; an empty pattern replaces nothing.
pub open spec fn replace_spec(s: Seq<u8>, pat: Seq<u8>, rep: Seq<u8>) -> Seq<u8>
    decreases s.len(),
{
    if pat.len() == 0 || s.len() < pat.len() {
        s
    } else if s.subrange(0, pat.len() as int) == pat {
        rep + replace_spec(s.skip(pat.len() as int), pat, rep)
    } else {
        seq![s[0]] + replace_spec(s.skip(1), pat, rep)
    }
}

/// Replaces every non-overlapping occurrence of `pat` in `s` with `rep`,
/// exactly as [`replace_spec`] describes.
pub fn replace_all_bytes(s: &[u8], pat: &[u8], rep: &[u8]) -> (r: Vec<u8>)
    ensures
        r@ == replace_spec(s@, pat@, rep@),
{
    if pat.len() == 0 {
        return vstd::slice::slice_to_vec(s);
    }
    let mut out: Vec<u8> = Vec::new();
    let mut i: usize = 0;
    proof {
        assert(s@.skip(0) =~= s@);
        assert(Seq::<u8>::empty() + replace_spec(s@, pat@, rep@) =~= replace_spec(
            s@,
            pat@,
            rep@,
        ));
    }
    while i < s.len()
        invariant
            0 <= i <= s@.len(),
            pat@.len() >= 1,
            replace_spec(s@, pat@, rep@) == out@ + replace_spec(s@.skip(i as int), pat@, rep@),
        decreases s@.len() - i,
    {
        let ghost rest = s@.skip(i as int);
        let matched = if pat.len() <= s.len() - i {
            let here = vstd::slice::slice_subrange(s, i, i + pat.len());
            let m = bytes_eq(here, pat);
            proof {
                assert(rest.subrange(0, pat@.len() as int) =~= s@.subrange(
                    i as int,
                    i + pat@.len(),
                ));
            }
            m
        } else {
            false
        };
        if matched {
            let mut j: usize = 0;
            let ghost out_before = out@;
            while j < rep.len()
                invariant
                    0 <= j <= rep@.len(),
                    out@ == out_before + rep@.take(j as int),
                decreases rep@.len() - j,
            {
                out.push(rep[j]);
                proof {
                    assert(out_before + rep@.take(j as int).push(rep@[j as int])
                        =~= out_before + rep@.take(j + 1));
                }
                j += 1;
            }
            proof {
                assert(rep@.take(rep@.len() as int) =~= rep@);
                assert(rest.skip(pat@.len() as int) =~= s@.skip(i + pat@.len()));
                assert(out_before + rep@ + replace_spec(s@.skip(i + pat@.len()), pat@, rep@)
                    =~= out_before + (rep@ + replace_spec(s@.skip(i + pat@.len()), pat@,
                    rep@)));
            }
            i += pat.len();
        } else {
            out.push(s[i]);
            proof {
                if pat@.len() <= rest.len() {
                    assert(rest.subrange(0, pat@.len() as int) != pat@);
                }
                assert(rest[0] == s@[i as int]);
                assert(rest.skip(1) =~= s@.skip(i + 1));
                let tail = replace_spec(s@.skip(i + 1), pat@, rep@);
                assert(out@.drop_last() + (seq![s@[i as int]] + tail) =~= out@ + tail);
            }
            i += 1;
        }
    }
    proof {
        assert(s@.skip(s@.len() as int) =~= Seq::<u8>::empty());
        assert(out@ + Seq::<u8>::empty() =~= out@);
    }
    out
}

/// Patches one generated source file: rewrites relative consensus-layer
/// paths to the upstream crate name, then puts every generated gRPC
/// client behind the feature gate.  `None` only if the fixed rewrite
/// pattern is refused by the regex engine.
pub fn patch_generated_source(contents: &[u8]) -> (r: Option<Vec<u8>>)
    ensures
        r is Some <==> regex_pattern_ok(ostracon_path_pattern()),
        r matches Some(v) ==> v@ == replace_spec(
            regex_replaced(ostracon_path_pattern(), contents@, ostracon_crate_name()),
            tonic_client_attribute(),
            grpc_client_attributes(),
        ),
{
    let rewritten = match regex_replace_all(
        "(super::)+ostracon",
        contents,
        "ostracon_proto".as_bytes(),
    ) {
        Some(v) => v,
        None => {
            return None;
        },
    };
    Some(replace_all_bytes(
        rewritten.as_slice(),
        "#[doc = r\" Generated client implementations.\"]".as_bytes(),
        "#[cfg(feature = \"grpc\")]\n#[cfg_attr(docsrs, doc(cfg(feature = \"grpc\")))]\n#[doc = r\" Generated client implementations.\"]".as_bytes(),
    ))
}

} // verus!
