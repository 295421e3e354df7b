//! Time-ordered identifiers for `<meeting-id>.wav` filenames.
//!
//! An id is the lowercase hyphenated form of a version-7 UUID: 32 hex digits
//! in groups of 8-4-4-4-12. Its high bits hold the creation time in
//! milliseconds, so ids sort in creation order, and its characters are all
//! safe in a Windows filename.
use vstd::prelude::*;

verus! {

/// A lowercase hexadecimal digit.
pub open spec fn is_lower_hex(c: char) -> bool {
    ('0' <= c && c <= '9') || ('a' <= c && c <= 'f')
}

/// Positions of the group separators in a hyphenated UUID.
pub open spec fn is_separator_position(i: int) -> bool {
    i == 8 || i == 13 || i == 18 || i == 23
}

/// Whether `s` is the lowercase hyphenated form of a version-7 UUID with the
/// RFC 4122 variant: 36 characters, hyphens at 8, 13, 18 and 23, lowercase
/// hex digits elsewhere, the version digit `7` at 14 and one of `8 9 a b` at 19.
pub open spec fn is_meeting_id(s: Seq<char>) -> bool {
    &&& s.len() == 36
    &&& forall|i: int|
        0 <= i < 36 ==> if is_separator_position(i) {
            s[i] == '-'
        } else {
            is_lower_hex(#[trigger] s[i])
        }
    &&& s[14] == '7'
    &&& (s[19] == '8' || s[19] == '9' || s[19] == 'a' || s[19] == 'b')
}

/// A character that cannot appear in a Windows filename component.
pub open spec fn is_filename_forbidden(c: char) -> bool {
    c == '/' || c == '\\' || c == ':' || c == '*' || c == '?' || c == '"' || c == '<' || c == '>'
        || c == '|'
}

/// Whether id `a` sorts strictly before id `b` (lexicographic order on
/// characters, for ids of equal length).
pub open spec fn id_precedes(a: Seq<char>, b: Seq<char>) -> bool {
    &&& a.len() == b.len()
    &&& exists|i: int|
        0 <= i < a.len() && #[trigger] a[i] < b[i] && forall|j: int| 0 <= j < i ==> a[j] == b[j]
}

/// A source of meeting ids that remembers, as ghost state, the last id it
/// handed out.
pub struct IdSource {
    last: Ghost<Option<Seq<char>>>,
}

impl IdSource {
    /// The last id this source handed out, if any.
    pub closed spec fn last_id(&self) -> Option<Seq<char>> {
        self.last@
    }

    /// A source that has handed out nothing yet.
    pub fn new() -> (ids: IdSource)
        ensures
            ids.last_id() is None,
    {
        IdSource { last: Ghost(None) }
    }

    /// The next meeting id: well-formed, and sorting strictly after the
    /// previous id of this source.
    pub fn next(&mut self) -> (id: String)
        ensures
            is_meeting_id(id@),
            old(self).last_id() matches Some(prev) ==> id_precedes(prev, id@),
            final(self).last_id() == Some(id@),
    {
        uuid_now_v7_string(self)
    }
}

/// `uuid::Uuid::now_v7` rendered with `to_string`. The uuid crate builds the
/// id from the current time, a process-wide counter and random bits, sets the
/// version nibble to 7 and the RFC 4122 variant, and its `Display` writes the
/// hyphenated lowercase form. It documents that the ids it generates in one
/// process are ordered by their creation: its process-wide context either
/// advances the millisecond timestamp or increments the counter below it on
/// every call, so each id's value, and with it its hyphenated lowercase text,
/// is greater than every earlier one. The contract claims that shape, and that
/// order against the last id `ids` handed out (which was generated in this
/// process, as `IdSource` values are made only by `IdSource::new` and updated
/// only here). The value itself depends on the clock and on chance, so nothing
/// ties it to an input.
#[verifier::external_body]
fn uuid_now_v7_string(ids: &mut IdSource) -> (s: String)
    ensures
        is_meeting_id(s@),
        old(ids).last_id() matches Some(prev) ==> id_precedes(prev, s@),
        final(ids).last_id() == Some(s@),
{
    let _ = ids;
    uuid::Uuid::now_v7().to_string()
}

/// Generate a meeting id for the WAV filename. Each call uses a fresh
/// [`IdSource`], so no contract relates the ids of two calls; callers that
/// need ids ordered by creation take them from one `IdSource`.
pub fn generate() -> (id: String)
    ensures
        is_meeting_id(id@),
{
    let mut ids = IdSource::new();
    ids.next()
}

/// Ids of one source never repeat: an id that sorts strictly after another
/// differs from it.
pub proof fn lemma_preceding_ids_differ(a: Seq<char>, b: Seq<char>)
    requires
        id_precedes(a, b),
    ensures
        a != b,
{
    let i = choose|i: int|
        0 <= i < a.len() && #[trigger] a[i] < b[i] && forall|j: int| 0 <= j < i ==> a[j] == b[j];
    assert(a[i] != b[i]);
}

/// The order of ids is transitive, so every id a source hands out sorts after
/// all of its earlier ones, not only the last.
pub proof fn lemma_id_order_is_transitive(a: Seq<char>, b: Seq<char>, c: Seq<char>)
    requires
        id_precedes(a, b),
        id_precedes(b, c),
    ensures
        id_precedes(a, c),
{
    let i = choose|i: int|
        0 <= i < a.len() && #[trigger] a[i] < b[i] && forall|j: int| 0 <= j < i ==> a[j] == b[j];
    let k = choose|k: int|
        0 <= k < b.len() && #[trigger] b[k] < c[k] && forall|j: int| 0 <= j < k ==> b[j] == c[j];
    if i <= k {
        assert(a[i] < c[i]);
        assert(forall|j: int| 0 <= j < i ==> a[j] == c[j]);
    } else {
        assert(a[k] < c[k]);
        assert(forall|j: int| 0 <= j < k ==> a[j] == c[j]);
    }
}

/// Every meeting id is a non-empty, safe Windows filename component: none of
/// its characters is a path separator or a character NTFS forbids.
pub proof fn lemma_meeting_id_is_filename_safe(s: Seq<char>)
    requires
        is_meeting_id(s),
    ensures
        s.len() > 0,
        forall|i: int| 0 <= i < s.len() ==> !is_filename_forbidden(#[trigger] s[i]),
{
    assert forall|i: int| 0 <= i < s.len() implies !is_filename_forbidden(#[trigger] s[i]) by {
        if is_separator_position(i) {
            assert(s[i] == '-');
        } else {
            assert(is_lower_hex(s[i]));
        }
    }
}

} // verus!
