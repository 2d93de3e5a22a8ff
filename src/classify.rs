use league_toolkit::file::LeagueFileKind;
use vstd::prelude::*;

use crate::paths::opt_view;

verus! {

// A fieldless enum: declared with its variants, so that verified code can name them.
#[verifier::external_type_specification]
pub struct ExLeagueFileKind(LeagueFileKind);

/// The kind that `LeagueFileKind::identify_from_bytes` finds in a chunk's bytes.
pub uninterp spec fn identified_kind(data: Seq<u8>) -> LeagueFileKind;

/// The canonical extension of a kind, without a leading `.`; `None` for unknown content.
pub uninterp spec fn kind_extension(kind: LeagueFileKind) -> Option<Seq<char>>;

/// The three bytes `RST`, the one three-byte magic.
pub open spec fn string_table_magic() -> Seq<u8> {
    seq![0x52u8, 0x53u8, 0x54u8]
}

/// The bytes that `LeagueFileKind::identify_from_bytes` reads without panicking: its JPEG test
/// admits three bytes but reads four, so a three-byte input other than `RST` makes it panic.
pub open spec fn identifiable(data: Seq<u8>) -> bool {
    data.len() != 3 || data == string_table_magic()
}

/// Relies on `LeagueFileKind::identify_from_bytes`: the kind is read from the leading magic
/// of the bytes and depends on them alone. It panics on three bytes other than `RST`, which
/// `requires` leaves out.
#[verifier::external_body]
fn identify_kind(data: &[u8]) -> (r: LeagueFileKind)
    requires
        identifiable(data@),
    ensures
        r == identified_kind(data@),
{
    LeagueFileKind::identify_from_bytes(data)
}

/// The kind of a chunk's decompressed bytes, judged by their content alone. Bytes that the
/// classifier cannot read (three bytes other than `RST`) are unknown content.
pub open spec fn classified_kind(data: Seq<u8>) -> LeagueFileKind {
    if identifiable(data) {
        identified_kind(data)
    } else {
        LeagueFileKind::Unknown
    }
}

/// Classifies a chunk's decompressed bytes; content that no magic identifies is
/// `LeagueFileKind::Unknown`.
pub fn classify_chunk(data: &[u8]) -> (r: LeagueFileKind)
    ensures
        r == classified_kind(data@),
{
    if data.len() == 3 && !(data[0] == 0x52 && data[1] == 0x53 && data[2] == 0x54) {
        return LeagueFileKind::Unknown;
    }
    proof {
        if data@.len() == 3 {
            assert(data@ =~= string_table_magic());
        }
    }
    identify_kind(data)
}

/// An extension as `LeagueFileKind::extension` spells them: lowercase ASCII letters.
pub open spec fn is_plain_extension(e: Seq<char>) -> bool {
    e.len() > 0 && forall|i: int| 0 <= i < e.len() ==> 'a' <= #[trigger] e[i] && e[i] <= 'z'
}

/// Relies on `LeagueFileKind::extension`: the kind's canonical extension, `None` exactly for
/// `LeagueFileKind::Unknown`; each extension in its table is a short word of lowercase letters.
#[verifier::external_body]
pub(crate) fn extension_of(kind: LeagueFileKind) -> (r: Option<&'static str>)
    ensures
        opt_view(r) == kind_extension(kind),
        r is None <==> kind == LeagueFileKind::Unknown,
        r matches Some(e) ==> is_plain_extension(e@),
{
    kind.extension()
}

/// Relies on `<[LeagueFileKind]>::contains` with the derived `PartialEq` of a fieldless enum,
/// under which two kinds are equal exactly when they are the same variant.
#[verifier::external_body]
pub(crate) fn kind_listed(list: &[LeagueFileKind], kind: &LeagueFileKind) -> (r: bool)
    ensures
        r == list@.contains(*kind),
{
    list.contains(kind)
}

/// A kind passes an optional allow-list: there is no list, or the list holds it.
pub open spec fn kind_admitted(filter_type: Option<Seq<LeagueFileKind>>, kind: LeagueFileKind) -> bool {
    match filter_type {
        None => true,
        Some(list) => list.contains(kind),
    }
}

/// The view of an optional allow-list.
pub open spec fn opt_list_view(filter_type: Option<&Vec<LeagueFileKind>>) -> Option<Seq<LeagueFileKind>> {
    match filter_type {
        None => None,
        Some(list) => Some(list@),
    }
}

/// Whether a classified kind passes the optional allow-list of kinds.
pub fn kind_matches(filter_type: Option<&Vec<LeagueFileKind>>, kind: LeagueFileKind) -> (r: bool)
    ensures
        r == kind_admitted(opt_list_view(filter_type), kind),
{
    match filter_type {
        None => true,
        Some(list) => kind_listed(list.as_slice(), &kind),
    }
}

} // verus!
