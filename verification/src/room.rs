//! The people connected to a project room: who they are, the presence list
//! every member sees, and what each connection may change.
use std::collections::HashMap;
use vstd::prelude::*;
use vstd::std_specs::hash::spec_hash_map_iter;
use vstd::std_specs::iter::IteratorSpec;
use vstd::string::StringSliceAdditionalSpecFns;

use crate::midi::ClientId;
use crate::operation::ProjectOperation;
use crate::text::{can_edit, clean_name, spec_clean_name, spec_valid_project_id, str_eq, valid_project_id};
use crate::token::{verify, verify_result, Claims, TokenError};

verus! {

/// A connected client as its invite token identifies it.
#[derive(Debug)]
pub struct Identity {
    pub user_id: String,
    pub name: String,
    pub image: Option<String>,
    pub role: String,
}

/// One entry of the presence list sent to a room.
#[derive(Debug)]
pub struct UserPresence {
    pub client_id: ClientId,
    pub user_id: String,
    pub name: String,
    pub image: Option<String>,
}

pub struct PresenceView {
    pub client_id: ClientId,
    pub user_id: Seq<char>,
    pub name: Seq<char>,
    pub image: Option<Seq<char>>,
}

pub open spec fn text_option(o: Option<String>) -> Option<Seq<char>> {
    match o {
        Some(s) => Some(s@),
        None => None,
    }
}

impl View for UserPresence {
    type V = PresenceView;

    open spec fn view(&self) -> PresenceView {
        PresenceView {
            client_id: self.client_id,
            user_id: self.user_id@,
            name: self.name@,
            image: text_option(self.image),
        }
    }
}

pub open spec fn presence_views(users: Seq<UserPresence>) -> Seq<PresenceView> {
    users.map_values(|u: UserPresence| u@)
}

/// The presence entry of client `client_id` with identity `who`.
pub open spec fn presence_of(client_id: ClientId, who: Identity) -> PresenceView {
    PresenceView { client_id, user_id: who.user_id@, name: who.name@, image: text_option(who.image) }
}

/// `users` lists every member of `clients` once, in increasing client id.
pub open spec fn lists_members(users: Seq<PresenceView>, clients: Map<ClientId, Identity>) -> bool {
    &&& sorted_ids(users)
    &&& members_of(users, clients)
    &&& forall|k: ClientId|
        #[trigger] clients.contains_key(k) ==> exists|i: int| 0 <= i < users.len() && users[i].client_id == k
}

fn copy_text(o: &Option<String>) -> (res: Option<String>)
    ensures
        text_option(res) == text_option(*o),
{
    match o {
        Some(s) => Some(s.clone()),
        None => None,
    }
}

/// The position at which an entry for `client_id` keeps `users` in
/// increasing client id.
fn insertion_point(users: &Vec<UserPresence>, client_id: ClientId) -> (pos: usize)
    requires
        sorted_ids(presence_views(users@)),
    ensures
        pos <= users@.len(),
        forall|i: int| 0 <= i < pos ==> (#[trigger] presence_views(users@)[i]).client_id <= client_id,
        forall|i: int| pos <= i < users@.len() ==> (#[trigger] presence_views(users@)[i]).client_id > client_id,
{
    let ghost v = presence_views(users@);
    let mut pos: usize = 0;
    while pos < users.len() && users[pos].client_id <= client_id
        invariant
            pos <= users@.len() == v.len(),
            v == presence_views(users@),
            sorted_ids(v),
            forall|i: int| 0 <= i < pos ==> (#[trigger] v[i]).client_id <= client_id,
        decreases users@.len() - pos,
    {
        assert(v[pos as int].client_id == users@[pos as int].client_id);
        pos = pos + 1;
    }
    assert forall|i: int| pos <= i < v.len() implies (#[trigger] v[i]).client_id > client_id by {
        assert(v[pos as int].client_id == users@[pos as int].client_id);
        if pos < i {
            assert(v[pos as int].client_id < v[i].client_id);
        }
    }
    pos
}

/// The client ids listed in `users`.
spec fn user_ids(users: Seq<PresenceView>) -> Set<ClientId> {
    Set::new(|k: ClientId| exists|i: int| 0 <= i < users.len() && users[i].client_id == k)
}

/// The keys of the first `n` entries of a map's listing.
spec fn first_keys(entries: Seq<(&ClientId, &Identity)>, n: int) -> Set<ClientId> {
    Set::new(|k: ClientId| exists|j: int| 0 <= j < n && *entries[j].0 == k)
}

proof fn lemma_insert_entry(
    before: Seq<PresenceView>,
    pos: int,
    e: PresenceView,
    clients: Map<ClientId, Identity>,
    entries: Seq<(&ClientId, &Identity)>,
)
    requires
        sorted_ids(before),
        members_of(before, clients),
        user_ids(before) == first_keys(entries, before.len() as int),
        before.len() < entries.len(),
        *entries[before.len() as int].0 == e.client_id,
        forall|j: int, l: int| 0 <= j < l < entries.len() ==> *(#[trigger] entries[j]).0 != *(#[trigger] entries[l]).0,
        0 <= pos <= before.len(),
        forall|i: int| 0 <= i < pos ==> (#[trigger] before[i]).client_id <= e.client_id,
        forall|i: int| pos <= i < before.len() ==> (#[trigger] before[i]).client_id > e.client_id,
        clients.contains_key(e.client_id),
        e == presence_of(e.client_id, clients[e.client_id]),
    ensures
        sorted_ids(before.insert(pos, e)),
        members_of(before.insert(pos, e), clients),
        user_ids(before.insert(pos, e)) == first_keys(entries, before.len() + 1int),
{
    let after = before.insert(pos, e);
    let n = before.len() as int;
    assert forall|i: int| 0 <= i < n implies (#[trigger] before[i]).client_id != e.client_id by {
        if before[i].client_id == e.client_id {
            assert(user_ids(before).contains(before[i].client_id));
            assert(first_keys(entries, n).contains(e.client_id));
            let j = choose|j: int| 0 <= j < n && *entries[j].0 == e.client_id;
            assert(*entries[j].0 != *entries[n].0);
        }
    }
    assert forall|i: int, j: int| 0 <= i < j < after.len() implies #[trigger] after[i].client_id
        < #[trigger] after[j].client_id by {
        if j < pos {
        } else if j == pos {
            assert(before[i].client_id != e.client_id);
        } else if i < pos {
        } else if i == pos {
        } else {
            assert(before[i - 1].client_id < before[j - 1].client_id);
        }
    }
    assert forall|k: ClientId| user_ids(after).contains(k) == first_keys(entries, n + 1).contains(k) by {
        if user_ids(after).contains(k) {
            let i = choose|i: int| 0 <= i < after.len() && after[i].client_id == k;
            if i == pos {
                assert(*entries[n].0 == k);
            } else {
                let b = if i < pos { i } else { i - 1 };
                assert(after[i] == before[b]);
                assert(user_ids(before).contains(k));
                let j = choose|j: int| 0 <= j < n && *entries[j].0 == k;
                assert(0 <= j < n + 1 && *entries[j].0 == k);
            }
        }
        if first_keys(entries, n + 1).contains(k) {
            let j = choose|j: int| 0 <= j < n + 1 && *entries[j].0 == k;
            if j == n {
                assert(after[pos].client_id == k);
            } else {
                assert(first_keys(entries, n).contains(k));
                let i = choose|i: int| 0 <= i < n && before[i].client_id == k;
                if i < pos {
                    assert(after[i] == before[i]);
                } else {
                    assert(after[i + 1] == before[i]);
                }
            }
        }
    }
    assert(user_ids(after) =~= first_keys(entries, n + 1));
    assert forall|i: int| #![trigger after[i]] 0 <= i < after.len() implies clients.contains_key(after[i].client_id)
        && after[i] == presence_of(after[i].client_id, clients[after[i].client_id]) by {
        if i < pos {
            assert(after[i] == before[i]);
        } else if i > pos {
            assert(after[i] == before[i - 1]);
        }
    }
}

/// Client ids increase along `users`.
pub open spec fn sorted_ids(users: Seq<PresenceView>) -> bool {
    forall|i: int, j: int| 0 <= i < j < users.len() ==> #[trigger] users[i].client_id < #[trigger] users[j].client_id
}

/// Every entry of `users` is the presence entry of a member of `clients`.
pub open spec fn members_of(users: Seq<PresenceView>, clients: Map<ClientId, Identity>) -> bool {
    forall|i: int|
        #![trigger users[i]]
        0 <= i < users.len() ==> clients.contains_key(users[i].client_id) && users[i] == presence_of(
            users[i].client_id,
            clients[users[i].client_id],
        )
}

proof fn lemma_distinct_keys(m: Map<ClientId, Identity>, entries: Seq<(&ClientId, &Identity)>)
    requires
        entries.no_duplicates(),
        forall|j: int|
            #![trigger entries[j]]
            0 <= j < entries.len() ==> m.contains_key(*entries[j].0) && m[*entries[j].0] == *entries[j].1,
    ensures
        forall|j: int, l: int| 0 <= j < l < entries.len() ==> *(#[trigger] entries[j]).0 != *(#[trigger] entries[l]).0,
{
    assert forall|j: int, l: int| 0 <= j < l < entries.len() implies *(#[trigger] entries[j]).0 != *(#[trigger] entries[l]).0 by {
        if *entries[j].0 == *entries[l].0 {
            assert(*entries[j].1 == *entries[l].1);
            assert(entries[j] == entries[l]);
        }
    }
}

/// The presence list of a room: each client with its user id, name and
/// image, ordered by client id.
pub fn presence(clients: &HashMap<ClientId, Identity>) -> (users: Vec<UserPresence>)
    ensures
        lists_members(presence_views(users@), clients@),
{
    broadcast use vstd::std_specs::hash::group_hash_axioms;

    let mut users: Vec<UserPresence> = Vec::new();
    let members = clients.iter();
    let ghost entries = members.remaining();
    proof {
        lemma_distinct_keys(clients@, entries);
    }
    for (client_id, identity) in it: members
        invariant
            it.seq() == entries,
            forall|j: int|
                #![trigger entries[j]]
                0 <= j < entries.len() ==> clients@.contains_key(*entries[j].0) && clients@[*entries[j].0]
                    == *entries[j].1,
            forall|j: int, l: int| 0 <= j < l < entries.len() ==> *(#[trigger] entries[j]).0 != *(#[trigger] entries[l]).0,
            users@.len() == it.index(),
            sorted_ids(presence_views(users@)),
            members_of(presence_views(users@), clients@),
            user_ids(presence_views(users@)) == first_keys(entries, users@.len() as int),
    {
        let ghost before = presence_views(users@);
        let entry = UserPresence {
            client_id: *client_id,
            user_id: identity.user_id.clone(),
            name: identity.name.clone(),
            image: copy_text(&identity.image),
        };
        let pos = insertion_point(&users, *client_id);
        proof {
            assert(entries[before.len() as int] == (client_id, identity));
            lemma_insert_entry(before, pos as int, entry@, clients@, entries);
        }
        users.insert(pos, entry);
        assert(presence_views(users@) =~= before.insert(pos as int, entry@));
    }
    assert forall|k: ClientId| #[trigger] clients@.contains_key(k) implies exists|i: int|
        0 <= i < users@.len() && presence_views(users@)[i].client_id == k by {
        let j = choose|j: int| 0 <= j < entries.len() && entries[j] == (&k, &clients@[k]);
        assert(*entries[j].0 == k);
        assert(first_keys(entries, entries.len() as int).contains(k));
        assert(user_ids(presence_views(users@)).contains(k));
    }
    users
}

/// The name a room shows for a user: the token's name cleaned to 40
/// characters, or `Producer` where nothing is left of it.
pub open spec fn spec_display_name(name: Seq<char>) -> Seq<char> {
    if spec_clean_name(name, 40).len() == 0 {
        "Producer"@
    } else {
        spec_clean_name(name, 40)
    }
}

pub fn display_name(name: &str) -> (res: String)
    ensures
        res@ == spec_display_name(name@),
{
    let cleaned = clean_name(name, 40);
    if cleaned.as_str().is_empty() {
        "Producer".to_owned()
    } else {
        cleaned
    }
}

/// The identity a verified token grants its holder.
pub open spec fn identity_spec(claims: Claims) -> Identity {
    Identity { user_id: claims.sub, name: claims.name, image: claims.image, role: claims.role }
}

/// The identity of a connection that joined with `claims`: the token's
/// subject, display name, image and role.
pub fn identity_of(claims: Claims) -> (who: Identity)
    ensures
        who.user_id == claims.sub,
        who.name@ == spec_display_name(claims.name@),
        who.image == claims.image,
        who.role == claims.role,
{
    let name = display_name(claims.name.as_str());
    Identity { user_id: claims.sub, name, image: claims.image, role: claims.role }
}

/// Why a connection's first message did not let it into a room.
#[derive(Debug, Clone, Copy, PartialEq, Eq, Structural)]
pub enum JoinRefusal {
    /// The first message was no join for a valid project id.
    NotAJoin,
    /// The invite token was refused.
    BadToken(TokenError),
}

impl JoinRefusal {
    /// The error message sent to the refused connection.
    pub fn message(&self) -> (text: &'static str)
        ensures
            text@ == match self {
                JoinRefusal::NotAJoin => "first message must be a valid join"@,
                JoinRefusal::BadToken(_) => "invalid or expired invite token"@,
            },
    {
        match self {
            JoinRefusal::NotAJoin => "first message must be a valid join",
            JoinRefusal::BadToken(_) => "invalid or expired invite token",
        }
    }
}

/// Accepts a connection whose first message asks to join `project_id` with
/// invite `token`: the project id must be valid and the token verified for
/// that project; the connection then has the identity of its claims.
pub fn accept_join<F: Fn(&[u8]) -> Option<Claims>>(
    project_id: &str,
    token: &str,
    shared_secret: Option<String>,
    now: u64,
    parse_claims: F,
) -> (res: Result<Identity, JoinRefusal>)
    requires
        forall|b: &[u8]| #[trigger] parse_claims.requires((b,)),
    ensures
        !spec_valid_project_id(project_id@) ==> res == Err::<Identity, JoinRefusal>(JoinRefusal::NotAJoin),
        spec_valid_project_id(project_id@) ==> exists|checked: Result<Claims, TokenError>|
            #[trigger] verify_result(token.spec_bytes(), Some(project_id@), shared_secret, now, parse_claims, checked)
                && match checked {
                Err(e) => res == Err::<Identity, JoinRefusal>(JoinRefusal::BadToken(e)),
                Ok(claims) => res matches Ok(who) && who.user_id == claims.sub && who.name@ == spec_display_name(
                    claims.name@,
                ) && who.image == claims.image && who.role == claims.role,
            },
{
    if !valid_project_id(project_id) {
        return Err(JoinRefusal::NotAJoin);
    }
    let checked = verify(token, project_id, shared_secret, now, parse_claims);
    match checked {
        Err(e) => Err(JoinRefusal::BadToken(e)),
        Ok(claims) => Ok(identity_of(claims)),
    }
}

/// Whether a member with `role` may apply `operation`: editors and owners
/// may edit, and only the owner may make a project public or private.
pub fn may_apply(role: &str, operation: &ProjectOperation) -> (res: bool)
    ensures
        res == ((role@ == "owner"@ || role@ == "editor"@) && (operation is SetPublic ==> role@ == "owner"@)),
{
    if !can_edit(role) {
        return false;
    }
    match operation {
        ProjectOperation::SetPublic { .. } => str_eq(role, "owner"),
        _ => true,
    }
}

/// Adds a connection to the members of a room and gives the presence list
/// that the room is then sent.
pub fn join(clients: &mut HashMap<ClientId, Identity>, client_id: ClientId, who: Identity) -> (users: Vec<UserPresence>)
    ensures
        final(clients)@ == old(clients)@.insert(client_id, who),
        lists_members(presence_views(users@), final(clients)@),
{
    broadcast use vstd::std_specs::hash::group_hash_axioms;

    clients.insert(client_id, who);
    presence(clients)
}

/// Removes a connection from the members of a room; gives the presence list
/// that the room is then sent and whether the room is left empty, in which
/// case it is closed.
pub fn leave(clients: &mut HashMap<ClientId, Identity>, client_id: ClientId) -> (res: (Vec<UserPresence>, bool))
    ensures
        final(clients)@ == old(clients)@.remove(client_id),
        lists_members(presence_views(res.0@), final(clients)@),
        res.1 == final(clients)@.is_empty(),
{
    broadcast use vstd::std_specs::hash::group_hash_axioms;

    clients.remove(&client_id);
    let users = presence(clients);
    let empty = clients.is_empty();
    (users, empty)
}

/// A client that joins a room is listed in the presence list that follows,
/// under its identity.
pub proof fn lemma_join_listed(users: Seq<PresenceView>, clients: Map<ClientId, Identity>, client_id: ClientId, who: Identity)
    requires
        lists_members(users, clients.insert(client_id, who)),
    ensures
        exists|i: int| 0 <= i < users.len() && users[i] == presence_of(client_id, who),
{
    assert(clients.insert(client_id, who).contains_key(client_id));
    let i = choose|i: int| 0 <= i < users.len() && users[i].client_id == client_id;
    assert(users[i] == presence_of(client_id, who));
}

/// A client that leaves a room is not in the presence list that follows,
/// and every other member still is.
pub proof fn lemma_leave_unlisted(users: Seq<PresenceView>, clients: Map<ClientId, Identity>, client_id: ClientId)
    requires
        lists_members(users, clients.remove(client_id)),
    ensures
        forall|i: int| 0 <= i < users.len() ==> users[i].client_id != client_id,
        forall|k: ClientId| #[trigger] clients.contains_key(k) && k != client_id ==> exists|i: int|
            0 <= i < users.len() && users[i] == presence_of(k, clients[k]),
{
    assert forall|k: ClientId| #[trigger] clients.contains_key(k) && k != client_id implies exists|i: int|
        0 <= i < users.len() && users[i] == presence_of(k, clients[k]) by {
        assert(clients.remove(client_id).contains_key(k));
        let i = choose|i: int| 0 <= i < users.len() && users[i].client_id == k;
        assert(users[i] == presence_of(k, clients[k]));
    }
}

/// Two listings of the same members agree up to `n`: position by position,
/// each lists the same entry.
proof fn lemma_listings_agree(a: Seq<PresenceView>, b: Seq<PresenceView>, clients: Map<ClientId, Identity>, n: int)
    requires
        lists_members(a, clients),
        lists_members(b, clients),
        0 <= n <= a.len(),
    ensures
        n <= b.len(),
        forall|i: int| 0 <= i < n ==> a[i] == b[i],
    decreases n,
{
    if n > 0 {
        let i = n - 1;
        lemma_listings_agree(a, b, clients, i);
        let k = a[i].client_id;
        assert(clients.contains_key(k));
        let p = choose|p: int| 0 <= p < b.len() && b[p].client_id == k;
        if p < i {
            assert(a[p] == b[p]);
            assert(a[p].client_id < a[i].client_id);
        }
        let k2 = b[i].client_id;
        assert(clients.contains_key(k2));
        let q = choose|q: int| 0 <= q < a.len() && a[q].client_id == k2;
        if q < i {
            assert(a[q] == b[q]);
            assert(b[q].client_id < b[i].client_id);
        }
        if p > i {
            assert(b[i].client_id < b[p].client_id);
            if q > i {
                assert(a[i].client_id < a[q].client_id);
            }
        }
        assert(a[i] == presence_of(k, clients[k]));
        assert(b[i] == presence_of(k, clients[k]));
    }
}

/// The presence list of a room is determined by its members: any two lists
/// that list the same members are the same list.
pub proof fn lemma_presence_determined(a: Seq<PresenceView>, b: Seq<PresenceView>, clients: Map<ClientId, Identity>)
    requires
        lists_members(a, clients),
        lists_members(b, clients),
    ensures
        a == b,
{
    lemma_listings_agree(a, b, clients, a.len() as int);
    lemma_listings_agree(b, a, clients, b.len() as int);
    assert(a =~= b);
}

} // verus!
