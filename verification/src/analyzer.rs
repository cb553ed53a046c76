//! Static analysis of raw bytecode.
//!
//! Bytecode arrives in a small container format and is validated once, at
//! save time.  The container declares the capabilities the contract
//! requires and the entry points it exports; the body that follows the
//! declarations is opaque to the analyzer.
//!
//! Layout of a container:
//!
//! * bytes 0..4 — magic `0x00 0x6d 0x6f 0x64`;
//! * byte 4 — container version, [`BYTECODE_VERSION`];
//! * byte 5 — the number of required capabilities, then that many names,
//!   each a length byte followed by the name's bytes;
//! * the next byte — the number of exported entry points, then that many
//!   names in the same shape;
//! * everything after the last name — the contract body, not inspected.

use vstd::prelude::*;

use crate::bytes_eq;
use crate::capabilities::CapabilitySet;
use crate::errors::ValidationError;

verus! {

/// The container version this analyzer accepts.
pub const BYTECODE_VERSION: u8 = 1;

/// What static analysis finds out about a piece of bytecode, computed once
/// per checksum at save time and immutable afterwards.
#[derive(Debug)]
pub struct AnalysisReport {
    /// The capabilities the contract requires of its host.
    pub required_capabilities: CapabilitySet,
    /// The entry points the contract exports, in declaration order.
    pub entry_points: Vec<Vec<u8>>,
    /// Whether the contract exports the inter-chain channel entry point.
    pub has_ibc_entry_points: bool,
}

/// The mathematical content of an [`AnalysisReport`].
#[verifier::ext_equal]
pub ghost struct ReportView {
    pub required_capabilities: Set<Seq<u8>>,
    pub entry_points: Seq<Seq<u8>>,
    pub has_ibc_entry_points: bool,
}

impl View for AnalysisReport {
    type V = ReportView;

    open spec fn view(&self) -> ReportView {
        ReportView {
            required_capabilities: self.required_capabilities@,
            entry_points: self.entry_points@.map_values(|v: Vec<u8>| v@),
            has_ibc_entry_points: self.has_ibc_entry_points,
        }
    }
}

/// The entry point every contract must export: the bytes of `instantiate`.
pub open spec fn instantiate_entry_point() -> Seq<u8> {
    seq![105u8, 110u8, 115u8, 116u8, 97u8, 110u8, 116u8, 105u8, 97u8, 116u8, 101u8]
}

/// The entry point whose presence sets the inter-chain flag: the bytes of
/// `ibc_channel_open`.
pub open spec fn ibc_entry_point() -> Seq<u8> {
    seq![
        105u8, 98u8, 99u8, 95u8, 99u8, 104u8, 97u8, 110u8, 110u8, 101u8, 108u8, 95u8,
        111u8, 112u8, 101u8, 110u8,
    ]
}

/// The bytes of the `instantiate` entry point name.
fn instantiate_name() -> (r: Vec<u8>)
    ensures
        r@ == instantiate_entry_point(),
{
    let mut v: Vec<u8> = Vec::new();
    v.push(105);
    v.push(110);
    v.push(115);
    v.push(116);
    v.push(97);
    v.push(110);
    v.push(116);
    v.push(105);
    v.push(97);
    v.push(116);
    v.push(101);
    proof {
        assert(v@ =~= instantiate_entry_point());
    }
    v
}

/// The bytes of the `ibc_channel_open` entry point name.
fn ibc_name() -> (r: Vec<u8>)
    ensures
        r@ == ibc_entry_point(),
{
    let mut v: Vec<u8> = Vec::new();
    v.push(105);
    v.push(98);
    v.push(99);
    v.push(95);
    v.push(99);
    v.push(104);
    v.push(97);
    v.push(110);
    v.push(110);
    v.push(101);
    v.push(108);
    v.push(95);
    v.push(111);
    v.push(112);
    v.push(101);
    v.push(110);
    proof {
        assert(v@ =~= ibc_entry_point());
    }
    v
}

/// Parses `count` length-prefixed names starting at `pos`: each name is a
/// length byte followed by that many bytes.  Yields the names and the
/// position just after the last one, or `None` if the bytes run out.
pub open spec fn parse_names(s: Seq<u8>, pos: int, count: int) -> Option<(Seq<Seq<u8>>, int)>
    decreases count,
{
    if count <= 0 {
        Some((Seq::empty(), pos))
    } else if 0 <= pos < s.len() {
        let n = s[pos] as int;
        if pos + 1 + n <= s.len() {
            match parse_names(s, pos + 1 + n, count - 1) {
                Some((names, end)) => Some(
                    (seq![s.subrange(pos + 1, pos + 1 + n)] + names, end),
                ),
                None => None,
            }
        } else {
            None
        }
    } else {
        None
    }
}

/// What analysis returns on each input: the report for a well-formed
/// container, the first error of the validation order otherwise.
pub open spec fn analyze_spec(s: Seq<u8>) -> Result<ReportView, ValidationError> {
    if s.len() < 4 {
        Err(ValidationError::Truncated)
    } else if !(s[0] == 0x00 && s[1] == 0x6d && s[2] == 0x6f && s[3] == 0x64) {
        Err(ValidationError::WrongMagic)
    } else if s.len() < 5 {
        Err(ValidationError::Truncated)
    } else if s[4] != BYTECODE_VERSION {
        Err(ValidationError::UnsupportedVersion(s[4]))
    } else if s.len() < 6 {
        Err(ValidationError::Truncated)
    } else {
        match parse_names(s, 6, s[5] as int) {
            None => Err(ValidationError::Truncated),
            Some((caps, p)) => if !(p < s.len()) {
                Err(ValidationError::Truncated)
            } else {
                match parse_names(s, p + 1, s[p] as int) {
                    None => Err(ValidationError::Truncated),
                    Some((entry_points, _)) => if !entry_points.contains(
                        instantiate_entry_point(),
                    ) {
                        Err(ValidationError::MissingEntryPoint)
                    } else {
                        Ok(ReportView {
                            required_capabilities: caps.to_set(),
                            entry_points,
                            has_ibc_entry_points: entry_points.contains(ibc_entry_point()),
                        })
                    },
                }
            },
        }
    }
}

/// Combines names already read with the outcome of parsing the rest.
spec fn prepend_names(
    done: Seq<Seq<u8>>,
    rest: Option<(Seq<Seq<u8>>, int)>,
) -> Option<(Seq<Seq<u8>>, int)> {
    match rest {
        Some((names, end)) => Some((done + names, end)),
        None => None,
    }
}

/// Reads `count` length-prefixed names from `wasm` starting at `start`,
/// exactly as [`parse_names`] describes.
fn parse_name_list(wasm: &[u8], start: usize, count: u8) -> (r: Option<(Vec<Vec<u8>>, usize)>)
    requires
        start <= wasm@.len(),
    ensures
        match r {
            Some((names, end)) => parse_names(wasm@, start as int, count as int)
                == Some((names@.map_values(|v: Vec<u8>| v@), end as int))
                && end <= wasm@.len(),
            None => parse_names(wasm@, start as int, count as int) is None,
        },
{
    let ghost s = wasm@;
    let mut names: Vec<Vec<u8>> = Vec::new();
    let mut pos: usize = start;
    let mut c: u8 = 0;
    while c < count
        invariant
            c <= count,
            pos <= s.len(),
            wasm@ == s,
            parse_names(s, start as int, count as int) == prepend_names(
                names@.map_values(|v: Vec<u8>| v@),
                parse_names(s, pos as int, (count - c) as int),
            ),
        decreases count - c,
    {
        if pos >= wasm.len() {
            return None;
        }
        let n = wasm[pos] as usize;
        if n > wasm.len() - pos - 1 {
            return None;
        }
        let name = vstd::slice::slice_to_vec(
            vstd::slice::slice_subrange(wasm, pos + 1, pos + 1 + n),
        );
        proof {
            let done = names@.map_values(|v: Vec<u8>| v@);
            let step = parse_names(s, pos as int, (count - c) as int);
            match parse_names(s, pos + 1 + n, (count - c) - 1) {
                Some((ns, end)) => {
                    assert(step == Some((seq![name@] + ns, end)));
                    assert(done + (seq![name@] + ns) =~= done.push(name@) + ns);
                }
                None => {
                    assert(step is None);
                }
            }
        }
        let ghost old_names = names@;
        names.push(name);
        pos = pos + 1 + n;
        c = c + 1;
        proof {
            assert(names@.map_values(|v: Vec<u8>| v@) =~= old_names.map_values(
                |v: Vec<u8>| v@,
            ).push(name@));
        }
    }
    proof {
        assert(parse_names(s, pos as int, 0) == Some((Seq::<Seq<u8>>::empty(), pos as int)));
        assert(names@.map_values(|v: Vec<u8>| v@) + Seq::<Seq<u8>>::empty() =~= names@.map_values(
            |v: Vec<u8>| v@,
        ));
    }
    Some((names, pos))
}

/// Whether `names` holds `target`.
fn list_contains(names: &Vec<Vec<u8>>, target: &[u8]) -> (r: bool)
    ensures
        r == names@.map_values(|v: Vec<u8>| v@).contains(target@),
{
    let mut i: usize = 0;
    while i < names.len()
        invariant
            0 <= i <= names@.len(),
            forall|j: int| 0 <= j < i ==> names@[j]@ != target@,
        decreases names@.len() - i,
    {
        if bytes_eq(names[i].as_slice(), target) {
            proof {
                assert(names@.map_values(|v: Vec<u8>| v@)[i as int] == target@);
            }
            return true;
        }
        i += 1;
    }
    proof {
        if names@.map_values(|v: Vec<u8>| v@).contains(target@) {
            let mapped = names@.map_values(|v: Vec<u8>| v@);
            let j = choose|j: int| 0 <= j < mapped.len() && #[trigger] mapped[j] == target@;
            assert(names@[j]@ == target@);
        }
    }
    false
}

/// Gathers `names` into a capability set.
fn build_capability_set(names: &Vec<Vec<u8>>) -> (r: CapabilitySet)
    ensures
        r.wf(),
        r@ == names@.map_values(|v: Vec<u8>| v@).to_set(),
{
    let mut set = CapabilitySet::new();
    let mut i: usize = 0;
    while i < names.len()
        invariant
            0 <= i <= names@.len(),
            set.wf(),
            forall|s: Seq<u8>| set@.contains(s) <==> exists|j: int|
                0 <= j < i && names@[j]@ == s,
        decreases names@.len() - i,
    {
        let name = vstd::slice::slice_to_vec(names[i].as_slice());
        set.insert(name);
        i += 1;
    }
    proof {
        let mapped = names@.map_values(|v: Vec<u8>| v@);
        assert forall|s: Seq<u8>| mapped.to_set().contains(s) implies set@.contains(s) by {
            let j = choose|j: int| 0 <= j < mapped.len() && mapped[j] == s;
            assert(names@[j]@ == s);
        }
        assert forall|s: Seq<u8>| set@.contains(s) implies mapped.to_set().contains(s) by {
            let j = choose|j: int| 0 <= j < names@.len() && names@[j]@ == s;
            assert(mapped[j] == s);
        }
        assert(set@ =~= mapped.to_set());
    }
    set
}

/// Validates `wasm` and extracts its report, exactly as [`analyze_spec`]
/// describes: malformed or unsupported bytecode is rejected, well-formed
/// bytecode yields its required capabilities and entry points.
pub fn analyze(wasm: &[u8]) -> (r: Result<AnalysisReport, ValidationError>)
    ensures
        r matches Ok(rep) ==> analyze_spec(wasm@) == Ok::<ReportView, ValidationError>(rep@)
            && rep.required_capabilities.wf(),
        r matches Err(e) ==> analyze_spec(wasm@) == Err::<ReportView, ValidationError>(e),
{
    if wasm.len() < 4 {
        return Err(ValidationError::Truncated);
    }
    if !(wasm[0] == 0x00 && wasm[1] == 0x6d && wasm[2] == 0x6f && wasm[3] == 0x64) {
        return Err(ValidationError::WrongMagic);
    }
    if wasm.len() < 5 {
        return Err(ValidationError::Truncated);
    }
    if wasm[4] != BYTECODE_VERSION {
        return Err(ValidationError::UnsupportedVersion(wasm[4]));
    }
    if wasm.len() < 6 {
        return Err(ValidationError::Truncated);
    }
    let caps = match parse_name_list(wasm, 6, wasm[5]) {
        Some(parsed) => parsed,
        None => {
            return Err(ValidationError::Truncated);
        },
    };
    let (cap_names, after_caps) = caps;
    if after_caps >= wasm.len() {
        return Err(ValidationError::Truncated);
    }
    let exports = match parse_name_list(wasm, after_caps + 1, wasm[after_caps]) {
        Some(parsed) => parsed,
        None => {
            return Err(ValidationError::Truncated);
        },
    };
    let (entry_points, _) = exports;
    let instantiate = instantiate_name();
    if !list_contains(&entry_points, instantiate.as_slice()) {
        return Err(ValidationError::MissingEntryPoint);
    }
    let ibc = ibc_name();
    let has_ibc_entry_points = list_contains(&entry_points, ibc.as_slice());
    let required_capabilities = build_capability_set(&cap_names);
    let report = AnalysisReport { required_capabilities, entry_points, has_ibc_entry_points };
    proof {
        assert(analyze_spec(wasm@) == Ok::<ReportView, ValidationError>(report@));
    }
    Ok(report)
}

} // verus!
