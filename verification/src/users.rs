//! Users and groups inside an image.
use crate::number::{decimal, decimal_is_digits, decimal_reads_back, parse_u32, read_decimal};
use crate::sequence::{lemma_filter_empty, lemma_filter_front, lemma_filter_next};
use crate::text::{cut, glue5, is_empty, lemma_pieces_append, lemma_pieces_of_free, lines};
use crate::text::{lines_of, pieces, same_text, split};
use crate::text::{split_once, trim, trimmed};
use vstd::prelude::*;

verus! {

/// The user or group number that a text stands for.
pub open spec fn read_id(text: Seq<char>) -> Option<nat> {
    read_decimal(text, u32::MAX as nat)
}

/// `uid` or `uid:gid`: a missing or unreadable group is the user's own.
pub open spec fn numeric_ids(user: Seq<char>) -> Option<(nat, nat)> {
    let parts = pieces(user, ':');
    match read_id(parts[0]) {
        None => None,
        Some(uid) => Some(
            (
                uid,
                if parts.len() > 1 && read_id(parts[1]) is Some {
                    read_id(parts[1])->0
                } else {
                    uid
                },
            ),
        ),
    }
}

/// `uid` or `uid:gid`: a missing or unreadable group is the user's own.
pub fn parse_uid_gid(user_spec: &str) -> (ids: Option<(u32, u32)>)
    ensures
        ids is Some == numeric_ids(user_spec@) is Some,
        ids matches Some((uid, gid)) ==> numeric_ids(user_spec@) == Some((uid as nat, gid as nat)),
{
    let parts = split(user_spec, ':');
    let ghost model = pieces(user_spec@, ':');
    assert(model[0] == parts@[0]@);
    match parse_u32(&parts[0]) {
        None => None,
        Some(uid) => {
            let mut gid: u32 = uid;
            if parts.len() > 1 {
                assert(model[1] == parts@[1]@);
                if let Some(value) = parse_u32(&parts[1]) {
                    gid = value;
                }
            }
            Some((uid, gid))
        },
    }
}

/// A line of a user or group file that gives the number of `name`: at least
/// `fields` fields between colons, the first the name and the third a number.
pub open spec fn gives_id(line: Seq<char>, name: Seq<char>, fields: nat) -> bool {
    let parts = pieces(line, ':');
    parts.len() >= fields && parts[0] == name && read_id(parts[2]) is Some
}

/// The number that the first line for `name` gives.
pub open spec fn id_in(file: Seq<char>, name: Seq<char>, fields: nat) -> Option<nat> {
    let found = lines_of(file).filter(|line: Seq<char>| gives_id(line, name, fields));
    if found.len() > 0 {
        read_id(pieces(found[0], ':')[2])
    } else {
        None
    }
}

/// The number that the first line for `name` gives.
pub fn find_id(file: &str, name: &str, fields: usize) -> (id: Option<u32>)
    requires
        fields >= 3,
    ensures
        id is Some == id_in(file@, name@, fields as nat) is Some,
        id matches Some(value) ==> id_in(file@, name@, fields as nat) == Some(value as nat),
{
    let all = lines(file);
    let ghost model = lines_of(file@);
    let ghost gives = |line: Seq<char>| gives_id(line, name@, fields as nat);
    let mut at: usize = 0;
    proof {
        lemma_filter_empty(model.take(0), gives);
    }
    while at < all.len()
        invariant
            at <= all@.len(),
            fields >= 3,
            all.deep_view() == model,
            model == lines_of(file@),
            gives == (|line: Seq<char>| gives_id(line, name@, fields as nat)),
            model.take(at as int).filter(gives) == Seq::<Seq<char>>::empty(),
        decreases all@.len() - at,
    {
        let line = &all[at];
        proof {
            assert(model[at as int] == line@);
            lemma_filter_next(model, at as int, gives);
            lemma_filter_front(model, at + 1, gives);
        }
        let parts = split(line, ':');
        let ghost fields_of_line = pieces(line@, ':');
        if parts.len() >= fields {
            assert(fields_of_line[0] == parts@[0]@ && fields_of_line[2] == parts@[2]@);
            if same_text(&parts[0], name) {
                if let Some(value) = parse_u32(&parts[2]) {
                    assert(model.filter(gives)[0] == line@);
                    return Some(value);
                }
            }
        }
        at = at + 1;
    }
    assert(model.take(at as int) =~= model);
    None
}

/// The user and group that a user specification stands for: none for a blank one;
/// numbers as they are; else names that the image's user and group files resolve.
/// A group that the file does not have is the user's number.
pub open spec fn resolved_user(
    role: Seq<char>,
    user: Option<Seq<char>>,
    passwd: Seq<char>,
    group: Seq<char>,
) -> Result<Option<(nat, nat)>, Seq<char>> {
    match user {
        None => Ok(None),
        Some(spec_text) => if trimmed(spec_text).len() == 0 {
            Ok(None)
        } else if numeric_ids(spec_text) is Some {
            Ok(numeric_ids(spec_text))
        } else {
            let (user_part, group_part) = match cut(spec_text, ':') {
                Some(parts) => parts,
                None => (spec_text, spec_text),
            };
            match id_in(passwd, user_part, 4) {
                None => Err(
                    "Failed to resolve "@ + role + " user '"@ + user_part + "' inside image"@,
                ),
                Some(uid) => Ok(
                    Some(
                        (
                            uid,
                            match id_in(group, group_part, 3) {
                                Some(gid) => gid,
                                None => uid,
                            },
                        ),
                    ),
                ),
            }
        },
    }
}

/// The user and group that a user specification stands for, given the text of the
/// image's user and group files. `role` says in a message what the user is for.
pub fn resolve_user(role: &str, user_spec: Option<&str>, passwd: &str, group: &str) -> (result:
    Result<Option<(u32, u32)>, String>)
    ensures
        match resolved_user(role@, user_spec.deep_view(), passwd@, group@) {
            Err(text) => result matches Err(message) && message@ == text,
            Ok(None) => result matches Ok(ids) && ids is None,
            Ok(Some(pair)) => result matches Ok(ids) && ids matches Some((uid, gid)) && pair == (
                uid as nat,
                gid as nat,
            ),
        },
{
    let spec_text = match user_spec {
        None => {
            return Ok(None);
        },
        Some(text) => text,
    };
    if is_empty(&trim(spec_text)) {
        return Ok(None);
    }
    if let Some(ids) = parse_uid_gid(spec_text) {
        return Ok(Some(ids));
    }
    let (user_part, group_part) = match split_once(spec_text, ':') {
        Some(parts) => parts,
        None => (spec_text.to_string(), spec_text.to_string()),
    };
    match find_id(passwd, &user_part, 4) {
        None => Err(
            glue5("Failed to resolve ", role, " user '", &user_part, "' inside image"),
        ),
        Some(uid) => {
            let gid = match find_id(group, &group_part, 3) {
                Some(gid) => gid,
                None => uid,
            };
            Ok(Some((uid, gid)))
        },
    }
}

/// A user given by number needs no user or group file: their content makes no
/// difference.
pub proof fn numeric_users_need_no_files(
    role: Seq<char>,
    user: Seq<char>,
    passwd: Seq<char>,
    group: Seq<char>,
    other_passwd: Seq<char>,
    other_group: Seq<char>,
)
    requires
        numeric_ids(user) is Some,
    ensures
        resolved_user(role, Some(user), passwd, group) == resolved_user(
            role,
            Some(user),
            other_passwd,
            other_group,
        ),
        resolved_user(role, Some(user), passwd, group) is Ok,
{
}

/// A user given by number is that number, and so is a group after a colon; without one the
/// group has the number of the user.
pub proof fn numbers_stand_for_themselves(
    role: Seq<char>,
    uid: u32,
    gid: u32,
    passwd: Seq<char>,
    group: Seq<char>,
)
    ensures
        resolved_user(role, Some(decimal(uid as nat)), passwd, group) == Ok::<
            Option<(nat, nat)>,
            Seq<char>,
        >(Some((uid as nat, uid as nat))),
        resolved_user(
            role,
            Some(decimal(uid as nat) + seq![':'] + decimal(gid as nat)),
            passwd,
            group,
        ) == Ok::<Option<(nat, nat)>, Seq<char>>(Some((uid as nat, gid as nat))),
{
    let user = decimal(uid as nat);
    let own = decimal(gid as nat);
    let both = user + seq![':'] + own;
    decimal_is_digits(uid as nat);
    decimal_is_digits(gid as nat);
    decimal_reads_back(uid as nat, u32::MAX as nat);
    decimal_reads_back(gid as nat, u32::MAX as nat);
    assert(!user.contains(':')) by {
        if user.contains(':') {
            let i = user.index_of(':');
            assert(user[i] == ':');
        }
    }
    assert(!own.contains(':')) by {
        if own.contains(':') {
            let i = own.index_of(':');
            assert(own[i] == ':');
        }
    }
    lemma_pieces_of_free(user, ':');
    lemma_pieces_of_free(own, ':');
    lemma_pieces_append(user, ':', own);
    crate::text::trimmed_texts_stay(user);
    assert(both[0] == user[0] && both.last() == own[own.len() - 1]);
    crate::text::trimmed_texts_stay(both);
}

/// A user given by name has the number of the first line for it in the user file, and the
/// group that is named, or else of the same name, has that of the first line for it in the
/// group file; a group that the file does not have is the user's number. A name that the
/// user file does not have is refused.
pub proof fn names_are_looked_up(
    role: Seq<char>,
    user: Seq<char>,
    own: Seq<char>,
    passwd: Seq<char>,
    group: Seq<char>,
)
    requires
        numeric_ids(user) is None,
        trimmed(user).len() > 0,
        !user.contains(':'),
        numeric_ids(user + seq![':'] + own) is None,
        trimmed(user + seq![':'] + own).len() > 0,
    ensures
        resolved_user(role, Some(user), passwd, group) is Ok <==> id_in(passwd, user, 4) is Some,
        resolved_user(role, Some(user), passwd, group) matches Ok(ids) ==> (ids matches Some(
            (uid, gid),
        ) && id_in(passwd, user, 4) == Some(uid) && (id_in(group, user, 3) is Some ==> id_in(
            group,
            user,
            3,
        ) == Some(gid)) && (id_in(group, user, 3) is None ==> gid == uid)),
        resolved_user(role, Some(user + seq![':'] + own), passwd, group) is Ok <==> id_in(
            passwd,
            user,
            4,
        ) is Some,
        resolved_user(role, Some(user + seq![':'] + own), passwd, group) matches Ok(ids) ==> (
        ids matches Some((uid, gid)) && id_in(passwd, user, 4) == Some(uid) && (id_in(
            group,
            own,
            3,
        ) is Some ==> id_in(group, own, 3) == Some(gid)) && (id_in(group, own, 3) is None
            ==> gid == uid)),
{
    crate::text::texts_are_cut_at_the_first(user, ':', own);
}

/// The number of a name is in the third field of the first line that begins with the name.
pub proof fn numbers_are_in_the_third_field(
    file: Seq<char>,
    name: Seq<char>,
    fields: nat,
    at: int,
)
    requires
        fields >= 3,
        0 <= at < lines_of(file).len(),
        pieces(lines_of(file)[at], ':').len() >= fields,
        pieces(lines_of(file)[at], ':')[0] == name,
        read_decimal(pieces(lines_of(file)[at], ':')[2], u32::MAX as nat) is Some,
        forall|i: int|
            0 <= i < at ==> pieces(#[trigger] lines_of(file)[i], ':')[0] != name,
    ensures
        id_in(file, name, fields) == read_decimal(
            pieces(lines_of(file)[at], ':')[2],
            u32::MAX as nat,
        ),
{
    let all = lines_of(file);
    let right = |line: Seq<char>| gives_id(line, name, fields);
    lemma_filter_front(all, at, right);
    let before = all.take(at);
    let after = all.skip(at);
    let none = before.filter(right);
    if none.len() > 0 {
        before.lemma_filter_pred(right, 0);
        assert(none.contains(none[0]));
        before.lemma_filter_contains_rev(right, none[0]);
        let i = before.index_of(none[0]);
        assert(before[i] == all[i]);
    }
    assert(none =~= Seq::<Seq<char>>::empty());
    lemma_filter_front(after, 1, right);
    lemma_filter_next(after, 0, right);
    lemma_filter_empty(after.take(0), right);
    assert(after[0] == all[at]);
    assert(after.take(1).filter(right) =~= seq![all[at]]);
    assert(all.filter(right)[0] == all[at]);
}

/// Nobody is asked for where no user is given, or a blank one.
pub proof fn blank_users_are_nobody(
    role: Seq<char>,
    user: Option<Seq<char>>,
    passwd: Seq<char>,
    group: Seq<char>,
)
    ensures
        resolved_user(role, user, passwd, group) == Ok::<Option<(nat, nat)>, Seq<char>>(None)
            <==> user is None || trimmed(user->0).len() == 0,
{
}

} // verus!
