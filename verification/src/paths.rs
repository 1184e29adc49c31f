//! Where things are below the data root.
use vstd::prelude::*;

use crate::text::decimal_text;
use crate::uuids::uuid_text;

verus! {

/// A path below a root: the names that lead from the root to it. What a root is, is up to the
/// caller; it is handed through as it is.
pub struct DataPath<'a, R> {
    pub root: &'a R,
    pub parts: Vec<String>,
}

/// The names of a path as texts.
pub open spec fn parts_of(parts: Seq<String>) -> Seq<Seq<char>> {
    parts.map_values(|part: String| part@)
}

/// The data of the user `uid`.
pub open spec fn user_parts(uid: int) -> Seq<Seq<char>> {
    seq![crate::text::decimal(uid)]
}

/// The staging directory of the backup with the given identifier.
pub open spec fn staging_parts(id: Seq<u8>) -> Seq<Seq<char>> {
    seq!["backups"@, "staging"@, crate::uuids::uuid_chars(id)]
}

/// The names that lead from the data root to the data of the user `uid`.
pub fn user_names(uid: i64) -> (parts: Vec<String>)
    ensures
        parts_of(parts@) == user_parts(uid as int),
{
    let mut parts: Vec<String> = Vec::new();
    parts.push(decimal_text(uid));
    assert(parts_of(parts@) =~= user_parts(uid as int));
    parts
}

/// The names that lead from the data root to the staging directory with the identifier `id`.
pub fn staging_names(id: [u8; 16]) -> (parts: Vec<String>)
    ensures
        parts_of(parts@) == staging_parts(id@),
{
    let mut parts: Vec<String> = Vec::new();
    parts.push("backups".to_owned());
    parts.push("staging".to_owned());
    parts.push(uuid_text(id));
    assert(parts_of(parts@) =~= staging_parts(id@));
    parts
}

/// A name that stays in its directory: it is not empty, it is neither `.` nor `..`, and no
/// character in it separates names or marks a drive.
pub open spec fn plain_name(name: Seq<char>) -> bool {
    &&& name.len() > 0
    &&& name != seq!['.']
    &&& name != seq!['.', '.']
    &&& forall|i: int|
        0 <= i < name.len() ==> #[trigger] name[i] != '/' && name[i] != '\\' && name[i] != ':'
            && name[i] != '\0'
}

/// Every part of a user directory and of a staging directory is a plain name: neither ever leads
/// out of the data root.
pub proof fn law_paths_stay_below_the_root(uid: int, id: Seq<u8>)
    requires
        id.len() == 16,
    ensures
        forall|i: int| 0 <= i < user_parts(uid).len() ==> plain_name(#[trigger] user_parts(uid)[i]),
        forall|i: int|
            0 <= i < staging_parts(id).len() ==> plain_name(#[trigger] staging_parts(id)[i]),
{
    let magnitude = if uid < 0 { -uid } else { uid };
    crate::text::lemma_decimal_nat_digits(magnitude as nat);
    let name = crate::text::decimal(uid);
    assert forall|i: int| 0 <= i < name.len() implies '0' <= #[trigger] name[i] <= '9' || name[i]
        == '-' by {
        if uid < 0 && i > 0 {
            assert(name[i] == crate::text::decimal_nat(magnitude as nat)[i - 1]);
        }
    }
    assert(name[0] != '.');
    assert(plain_name(name));
    crate::uuids::lemma_uuid_chars(id);
    assert(plain_name(crate::uuids::uuid_chars(id)));
    reveal_strlit("backups");
    reveal_strlit("staging");
    assert("backups"@[0] == 'b' && "staging"@[0] == 's');
    assert(plain_name("backups"@));
    assert(plain_name("staging"@));
}

/// Different users have different directories.
pub proof fn law_user_directories_differ(one: int, other: int)
    requires
        one != other,
    ensures
        user_parts(one) != user_parts(other),
{
    if user_parts(one) == user_parts(other) {
        assert(user_parts(one)[0] == user_parts(other)[0]);
        crate::text::lemma_decimal_injective(one, other);
    }
}

/// Different identifiers have different staging directories.
pub proof fn law_staging_directories_differ(one: Seq<u8>, other: Seq<u8>)
    requires
        one.len() == 16,
        other.len() == 16,
        one != other,
    ensures
        staging_parts(one) != staging_parts(other),
{
    if staging_parts(one) == staging_parts(other) {
        assert(staging_parts(one)[2] == staging_parts(other)[2]);
        crate::uuids::lemma_uuid_chars_injective(one, other);
    }
}

/// A staging directory does not lie in a user directory, nor a user directory in it: a snapshot
/// is never part of what it is taken of.
pub proof fn law_staging_is_apart_from_users(uid: int, id: Seq<u8>)
    ensures
        !user_parts(uid).is_prefix_of(staging_parts(id)),
        !staging_parts(id).is_prefix_of(user_parts(uid)),
{
    let magnitude = if uid < 0 { -uid } else { uid };
    crate::text::lemma_decimal_nat_digits(magnitude as nat);
    reveal_strlit("backups");
    assert(crate::text::decimal(uid)[0] != 'b');
    if user_parts(uid).is_prefix_of(staging_parts(id)) {
        assert(staging_parts(id)[0] == user_parts(uid)[0]);
    }
}

/// The directory of a user is the one that is named by the user id in decimal, directly below the
/// data root.
pub proof fn law_user_directory_is_named_by_the_id(uid: int)
    ensures
        user_parts(uid).len() == 1,
        uid >= 0 ==> crate::text::reads_as(user_parts(uid)[0], uid),
        uid < 0 ==> user_parts(uid)[0].len() > 0 && user_parts(uid)[0][0] == '-'
            && crate::text::reads_as(user_parts(uid)[0].skip(1), -uid),
{
    crate::text::law_decimal_reads_back(uid);
}

/// The staging directory of a backup is the one that is named by the text of its identifier, in the
/// directory `staging` of the directory `backups` below the data root.
pub proof fn law_staging_directory_is_named_by_the_id(id: Seq<u8>)
    requires
        id.len() == 16,
    ensures
        staging_parts(id).len() == 3,
        staging_parts(id)[0] == "backups"@,
        staging_parts(id)[1] == "staging"@,
        ({
            let name = staging_parts(id)[2];
            &&& name.len() == 36
            &&& name[8] == '-' && name[13] == '-' && name[18] == '-' && name[23] == '-'
            &&& forall|i: int|
                0 <= i < 32 ==> '0' <= name[#[trigger] crate::uuids::digit_place(i)] <= '9' || 'a'
                    <= name[crate::uuids::digit_place(i)] <= 'f'
            &&& forall|i: int|
                0 <= i < 16 ==> #[trigger] id[i] == 16 * crate::text::hex_value(
                    name[crate::uuids::digit_place(2 * i)],
                ) + crate::text::hex_value(name[crate::uuids::digit_place(2 * i + 1)])
        }),
{
    crate::uuids::law_uuid_reads_back(id);
}

/// The names of a path are seen name by name, each with all of its characters.
pub proof fn law_parts_are_seen_whole(parts: Seq<String>)
    ensures
        parts_of(parts).len() == parts.len(),
        forall|i: int| 0 <= i < parts.len() ==> #[trigger] parts_of(parts)[i] == parts[i]@,
{
}

} // verus!
