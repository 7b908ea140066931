use vstd::prelude::*;

use crate::text::{
    join, join_with, lemma_non_empty_concat, lemma_non_empty_keeps_all, lemma_split_on_concat,
    lemma_split_on_join, lemma_split_on_without_separator, non_empty, split_non_empty, split_on,
};

verus! {

#[verifier::external_type_specification]
#[verifier::external_body]
pub struct ExRedisClient(redis::Client);

#[verifier::external_type_specification]
#[verifier::external_body]
pub struct ExRedisConnection(redis::Connection);

#[verifier::external_type_specification]
#[verifier::external_body]
pub struct ExRedisError(redis::RedisError);

/// Relies on redis's `Client::open`: checks the connection URL and makes a
/// client, without connecting.
#[verifier::external_body]
fn open_client(connection_url: &str) -> (r: Result<redis::Client, redis::RedisError>) {
    redis::Client::open(connection_url)
}

/// Relies on redis's `Client::get_connection`: connects to the server.
#[verifier::external_body]
fn connect(client: &redis::Client) -> (r: Result<redis::Connection, redis::RedisError>) {
    client.get_connection()
}

/// Relies on redis's `cmd("SELECT")`: makes the connection use database `index`.
#[verifier::external_body]
fn select_database(con: &mut redis::Connection, index: u8) -> (r: Result<(), redis::RedisError>) {
    redis::cmd("SELECT").arg(index).query(con)
}

/// Relies on redis's `Commands::get`: the string stored under `key`, `None` where
/// there is none.
#[verifier::external_body]
fn read_value(con: &mut redis::Connection, key: &str) -> (r: Result<
    Option<String>,
    redis::RedisError,
>) {
    redis::Commands::get(con, key)
}

/// Relies on redis's `Commands::set`: stores `value` under `key`.
#[verifier::external_body]
fn write_value(con: &mut redis::Connection, key: &str, value: &str) -> (r: Result<
    (),
    redis::RedisError,
>) {
    redis::Commands::set(con, key, value)
}

/// Relies on redis's `Commands::keys`: the keys that match `pattern`.
#[verifier::external_body]
fn read_keys(con: &mut redis::Connection, pattern: &str) -> (r: Result<
    Option<Vec<String>>,
    redis::RedisError,
>) {
    redis::Commands::keys(con, pattern)
}

/// The databases of the store: one records the users, one their domain lists.
pub enum Database {
    User,
    Domains,
}

pub open spec fn database_index(db: Database) -> u8 {
    match db {
        Database::User => 0,
        Database::Domains => 1,
    }
}

impl Database {
    /// The number under which the server knows the database.
    pub fn index(&self) -> (r: u8)
        ensures
            r == database_index(*self),
    {
        match self {
            Database::User => 0,
            Database::Domains => 1,
        }
    }
}

/// A domain as a list holds it: not empty, and without the separator `,`.
pub open spec fn is_entry(entry: Seq<char>) -> bool {
    entry.len() > 0 && forall|j: int| 0 <= j < entry.len() ==> entry[j] != ','
}

/// The domains that a stored value lists: its `,`-separated pieces, empty ones left out.
pub open spec fn domain_entries(value: Seq<char>) -> Seq<Seq<char>> {
    non_empty(split_on(value, ','))
}

/// The stored value after `domain` is added to the list `existing`.
pub open spec fn value_with(existing: Option<Seq<char>>, domain: Seq<char>) -> Seq<char> {
    match existing {
        Some(value) => value + ","@ + domain,
        None => domain,
    }
}

/// The entries other than `domain`, in their order.
pub open spec fn entries_without(entries: Seq<Seq<char>>, domain: Seq<char>) -> Seq<Seq<char>>
    decreases entries.len(),
{
    if entries.len() == 0 {
        Seq::empty()
    } else if entries.last() == domain {
        entries_without(entries.drop_last(), domain)
    } else {
        entries_without(entries.drop_last(), domain).push(entries.last())
    }
}

/// The stored value after `domain` is taken out of the list `value`; `None`
/// where the list does not hold it.
pub open spec fn value_without(value: Seq<char>, domain: Seq<char>) -> Option<Seq<char>> {
    if domain_entries(value).contains(domain) {
        Some(join(entries_without(domain_entries(value), domain), ','))
    } else {
        None
    }
}

pub proof fn lemma_split_pieces_lack_separator(s: Seq<char>, sep: char)
    ensures
        forall|i: int, j: int|
            0 <= i < split_on(s, sep).len() && 0 <= j < split_on(s, sep)[i].len()
                ==> split_on(s, sep)[i][j] != sep,
    decreases s.len(),
{
    if s.len() > 0 {
        lemma_split_pieces_lack_separator(s.drop_last(), sep);
        crate::text::lemma_split_on_len(s.drop_last(), sep);
        let pieces = split_on(s.drop_last(), sep);
        if s.last() != sep {
            let grown = pieces.last().push(s.last());
            assert forall|j: int| 0 <= j < grown.len() implies grown[j] != sep by {
                if j < pieces.last().len() {
                    assert(grown[j] == pieces[pieces.len() - 1][j]);
                }
            }
        }
    }
}

pub proof fn lemma_non_empty_entries(pieces: Seq<Seq<char>>)
    requires
        forall|i: int, j: int|
            0 <= i < pieces.len() && 0 <= j < pieces[i].len() ==> pieces[i][j] != ',',
    ensures
        forall|i: int| 0 <= i < non_empty(pieces).len() ==> is_entry(#[trigger] non_empty(pieces)[i]),
    decreases pieces.len(),
{
    if pieces.len() > 0 {
        let rest = pieces.drop_last();
        assert forall|i: int, j: int| 0 <= i < rest.len() && 0 <= j < rest[i].len() implies rest[i][j]
            != ',' by {
            assert(rest[i] == pieces[i]);
        }
        lemma_non_empty_entries(rest);
        let last = pieces.last();
        assert forall|j: int| 0 <= j < last.len() implies last[j] != ',' by {
            assert(last[j] == pieces[pieces.len() - 1][j]);
        }
        let kept = non_empty(rest);
        assert forall|i: int| 0 <= i < non_empty(pieces).len() implies is_entry(
            #[trigger] non_empty(pieces)[i],
        ) by {
            if i < kept.len() {
                assert(non_empty(pieces)[i] == kept[i]);
            }
        }
    }
}

/// Every domain that a stored value lists is a proper entry.
pub proof fn lemma_domain_entries_are_entries(value: Seq<char>)
    ensures
        forall|i: int|
            0 <= i < domain_entries(value).len() ==> is_entry(#[trigger] domain_entries(value)[i]),
{
    lemma_split_pieces_lack_separator(value, ',');
    lemma_non_empty_entries(split_on(value, ','));
}

pub proof fn lemma_entries_without_members(entries: Seq<Seq<char>>, domain: Seq<char>)
    requires
        forall|i: int| 0 <= i < entries.len() ==> is_entry(#[trigger] entries[i]),
    ensures
        forall|i: int|
            0 <= i < entries_without(entries, domain).len() ==> is_entry(
                #[trigger] entries_without(entries, domain)[i],
            ) && entries_without(entries, domain)[i] != domain,
    decreases entries.len(),
{
    if entries.len() > 0 {
        let rest = entries.drop_last();
        assert forall|i: int| 0 <= i < rest.len() implies is_entry(#[trigger] rest[i]) by {
            assert(rest[i] == entries[i]);
        }
        lemma_entries_without_members(rest, domain);
        assert(is_entry(entries[entries.len() - 1]));
        let kept = entries_without(rest, domain);
        assert forall|i: int| 0 <= i < entries_without(entries, domain).len() implies is_entry(
            #[trigger] entries_without(entries, domain)[i],
        ) && entries_without(entries, domain)[i] != domain by {
            if i < kept.len() {
                assert(entries_without(entries, domain)[i] == kept[i]);
            }
        }
    }
}

/// Adding a domain to a list and reading the list back gives the domains it
/// held before, then the new one.
pub proof fn lemma_add_then_list(existing: Option<Seq<char>>, domain: Seq<char>)
    requires
        is_entry(domain),
    ensures
        domain_entries(value_with(existing, domain)) == (match existing {
            Some(value) => domain_entries(value),
            None => Seq::empty(),
        }).push(domain),
{
    reveal_strlit(",");
    lemma_split_on_without_separator(domain, ',');
    assert(seq![domain].drop_last() =~= Seq::<Seq<char>>::empty());
    assert(seq![domain].last() == domain);
    assert(non_empty(Seq::<Seq<char>>::empty()) == Seq::<Seq<char>>::empty());
    assert(non_empty(seq![domain]) == non_empty(seq![domain].drop_last()).push(domain));
    assert(non_empty(seq![domain]) =~= seq![domain]);
    match existing {
        Some(value) => {
            assert(value + ","@ + domain =~= value + seq![','] + domain);
            lemma_split_on_concat(value, domain, ',');
            lemma_non_empty_concat(split_on(value, ','), seq![domain]);
            assert(domain_entries(value) + seq![domain] =~= domain_entries(value).push(domain));
        },
        None => {
            assert(Seq::<Seq<char>>::empty().push(domain) =~= seq![domain]);
        },
    }
}

/// Taking a domain out of a list that holds it, then reading the list back,
/// gives the other domains in their order, and no copy of the one taken out.
pub proof fn lemma_remove_then_list(value: Seq<char>, domain: Seq<char>)
    requires
        value_without(value, domain) is Some,
    ensures
        domain_entries(value_without(value, domain)->Some_0) == entries_without(
            domain_entries(value),
            domain,
        ),
        !domain_entries(value_without(value, domain)->Some_0).contains(domain),
{
    let entries = domain_entries(value);
    let kept = entries_without(entries, domain);
    lemma_domain_entries_are_entries(value);
    lemma_entries_without_members(entries, domain);
    if kept.len() == 0 {
        let pieces = split_on(Seq::<char>::empty(), ',');
        assert(join(kept, ',') == Seq::<char>::empty());
        assert(pieces == seq![Seq::<char>::empty()]);
        assert(pieces.drop_last() =~= Seq::<Seq<char>>::empty());
        assert(pieces.last().len() == 0);
        assert(non_empty(Seq::<Seq<char>>::empty()) == Seq::<Seq<char>>::empty());
        assert(non_empty(pieces) == non_empty(pieces.drop_last()));
        assert(non_empty(pieces) =~= kept);
    } else {
        assert forall|i: int, j: int| 0 <= i < kept.len() && 0 <= j < kept[i].len() implies kept[i][j]
            != ',' by {
            assert(is_entry(kept[i]));
        }
        lemma_split_on_join(kept, ',');
        assert forall|i: int| 0 <= i < kept.len() implies (#[trigger] kept[i]).len() > 0 by {
            assert(is_entry(kept[i]));
        }
        lemma_non_empty_keeps_all(kept);
    }
    assert forall|i: int| 0 <= i < kept.len() implies kept[i] != domain by {
        assert(is_entry(kept[i]) && kept[i] != domain);
    }
}

/// The domains that the stored value `domains` lists, in order; empty pieces
/// between separators are left out.
pub fn parse_domain_list(domains: &String) -> (r: Vec<String>)
    ensures
        r.deep_view() == domain_entries(domains@),
        forall|i: int| 0 <= i < r.len() ==> is_entry(#[trigger] r[i]@),
{
    let r = split_non_empty(domains.as_str(), ',');
    proof {
        lemma_domain_entries_are_entries(domains@);
        assert forall|i: int| 0 <= i < r.len() implies is_entry(#[trigger] r[i]@) by {
            assert(r[i]@ == r.deep_view()[i]);
            assert(domain_entries(domains@)[i] == r[i]@);
        }
    }
    r
}

/// The stored value once `domain` is added to the list `existing` (none yet
/// where `existing` is `None`).
pub fn domain_list_with(existing: Option<String>, domain: &str) -> (r: String)
    ensures
        r@ == value_with(
            match existing {
                Some(v) => Some(v@),
                None => None,
            },
            domain@,
        ),
{
    match existing {
        Some(value) => {
            let mut r = value;
            r.append(",");
            r.append(domain);
            r
        },
        None => String::from_str(domain),
    }
}

/// The stored value once every entry `domain` is taken out of the list `value`;
/// `None` where the list does not hold it.
pub fn domain_list_without(value: &String, domain: &str) -> (r: Option<String>)
    ensures
        r is None <==> value_without(value@, domain@) is None,
        r is Some ==> r->Some_0@ == value_without(value@, domain@)->Some_0,
        r is Some ==> is_entry(domain@),
{
    let entries = parse_domain_list(value);
    let wanted = String::from_str(domain);
    let mut kept: Vec<String> = Vec::new();
    let mut found = false;
    let mut i: usize = 0;
    while i < entries.len()
        invariant
            i <= entries.len(),
            wanted@ == domain@,
            entries.deep_view() == domain_entries(value@),
            kept.deep_view() == entries_without(entries.deep_view().subrange(0, i as int), domain@),
            found <==> exists|k: int| 0 <= k < i && entries.deep_view()[k] == domain@,
        decreases entries.len() - i,
    {
        let ghost all = entries.deep_view();
        proof {
            assert(all.subrange(0, i + 1).drop_last() =~= all.subrange(0, i as int));
            assert(all.subrange(0, i + 1).last() == entries[i as int]@);
        }
        if entries[i] == wanted {
            found = true;
        } else {
            let ghost before = kept.deep_view();
            kept.push(entries[i].clone());
            assert(kept.deep_view() =~= before.push(entries[i as int]@));
        }
        i = i + 1;
    }
    proof {
        let all = entries.deep_view();
        assert(all.subrange(0, entries.len() as int) =~= all);
        if found {
            assert(all.contains(domain@));
        } else {
            assert(!all.contains(domain@));
        }
    }
    proof {
        lemma_domain_entries_are_entries(value@);
        if found {
            let k = choose|k: int| 0 <= k < entries.len() && entries.deep_view()[k] == domain@;
            assert(is_entry(domain_entries(value@)[k]));
        }
    }
    if found {
        proof { reveal_strlit(","); }
        Some(join_with(&kept, ","))
    } else {
        None
    }
}

/// What a read value holds, as text.
pub open spec fn stored(existing: Option<String>) -> Option<Seq<char>> {
    match existing {
        Some(v) => Some(v@),
        None => None,
    }
}

/// The value to write once every entry `domain` is taken out of the stored
/// list `existing`; `None` where there is no list or it does not hold `domain`.
pub fn domain_list_after_removal(existing: Option<String>, domain: &str) -> (r: Option<String>)
    ensures
        stored(r) == match stored(existing) {
            Some(value) => value_without(value, domain@),
            None => None,
        },
        r is Some ==> is_entry(domain@),
{
    match existing {
        Some(value) => domain_list_without(&value, domain),
        None => None,
    }
}

/// The domains of a stored list; `None` where there is no list.
pub fn stored_domains(existing: Option<String>) -> (r: Option<Vec<String>>)
    ensures
        existing is None <==> r is None,
        r is Some ==> r->Some_0.deep_view() == domain_entries(existing->Some_0@),
        r matches Some(list) ==> forall|i: int|
            0 <= i < list.len() ==> is_entry(#[trigger] list[i]@),
{
    match existing {
        Some(value) => Some(parse_domain_list(&value)),
        None => None,
    }
}

/// The users that have a list, in the order given, each with the domains of
/// its list; `values` holds what is stored for each user, in the same order.
pub open spec fn users_with_lists(users: Seq<Seq<char>>, values: Seq<Option<Seq<char>>>) -> Seq<
    (Seq<char>, Seq<Seq<char>>),
>
    decreases users.len(),
{
    if users.len() == 0 {
        Seq::empty()
    } else {
        let rest = users_with_lists(users.drop_last(), values.drop_last());
        match values.last() {
            Some(value) => rest.push((users.last(), domain_entries(value))),
            None => rest,
        }
    }
}

/// The users that have a list, in order, each with the domains of its list;
/// `values` holds what is stored for each of `users`, in the same order.
pub fn lists_of(users: &Vec<String>, values: &Vec<Option<String>>) -> (r: Vec<
    (String, Vec<String>),
>)
    requires
        values.len() == users.len(),
    ensures
        r.deep_view() == users_with_lists(users.deep_view(), values.deep_view()),
        forall|i: int, j: int|
            0 <= i < r.len() && 0 <= j < r[i].1.len() ==> is_entry(#[trigger] r[i].1[j]@),
{
    let mut found: Vec<(String, Vec<String>)> = Vec::new();
    let mut i: usize = 0;
    while i < users.len()
        invariant
            i <= users.len(),
            values.len() == users.len(),
            found.deep_view() == users_with_lists(
                users.deep_view().subrange(0, i as int),
                values.deep_view().subrange(0, i as int),
            ),
            forall|a: int, j: int|
                0 <= a < found.len() && 0 <= j < found[a].1.len() ==> is_entry(
                    #[trigger] found[a].1[j]@,
                ),
        decreases users.len() - i,
    {
        let ghost before = found.deep_view();
        proof {
            let us = users.deep_view().subrange(0, i + 1);
            let vs = values.deep_view().subrange(0, i + 1);
            assert(us.drop_last() =~= users.deep_view().subrange(0, i as int));
            assert(vs.drop_last() =~= values.deep_view().subrange(0, i as int));
            assert(us.last() == users[i as int]@);
            assert(vs.last() == values[i as int].deep_view());
        }
        match &values[i] {
            Some(value) => {
                let ghost old_found = found;
                let entry = (users[i].clone(), parse_domain_list(value));
                let ghost pushed = entry;
                found.push(entry);
                assert(found.deep_view() =~= before.push((users[i as int]@, domain_entries(value@))));
                assert forall|a: int, j: int|
                    0 <= a < found.len() && 0 <= j < found[a].1.len() implies is_entry(
                        #[trigger] found[a].1[j]@,
                    ) by {
                    if a < old_found.len() {
                        assert(found[a] == old_found[a]);
                    } else {
                        assert(found[a] == pushed);
                    }
                }
            },
            None => {},
        }
        i = i + 1;
    }
    proof {
        assert(users.deep_view().subrange(0, users.len() as int) =~= users.deep_view());
        assert(values.deep_view().subrange(0, values.len() as int) =~= values.deep_view());
    }
    found
}

/// A client of the store's server.
pub struct RedisClient {
    client: redis::Client,
}

impl RedisClient {
    /// Makes a client for the server at `connection_url`; an invalid URL gives
    /// the error.
    pub fn new(connection_url: &str) -> (r: Result<RedisClient, redis::RedisError>) {
        match open_client(connection_url) {
            Ok(client) => Ok(RedisClient { client }),
            Err(error) => Err(error),
        }
    }

    pub fn get_connection(&self) -> (r: Result<redis::Connection, redis::RedisError>) {
        connect(&self.client)
    }

    /// Makes `con` use the database `db`; a failure leaves it where it was.
    pub fn set_database(&self, con: &mut redis::Connection, db: Database) {
        let _ = select_database(con, db.index());
    }
}

/// The operations on the store: users, and each user's list of domains.
pub struct RedisActions {}

impl RedisActions {
    /// Records that `user_id` has used the service.
    pub fn store_user(client: &RedisClient, user_id: &str) -> (r: Result<(), redis::RedisError>) {
        let mut con = match client.get_connection() {
            Ok(con) => con,
            Err(error) => return Err(error),
        };
        client.set_database(&mut con, Database::User);
        write_value(&mut con, user_id, "1")
    }

    /// Adds `domain` at the end of the list of `user_id`, duplicates included,
    /// and gives back the value written: the list read, `,`, then `domain`, or
    /// `domain` alone where the user had no list.
    pub fn store_domain(client: &RedisClient, user_id: &str, domain: &str) -> (r: Result<
        String,
        redis::RedisError,
    >)
        ensures
            r matches Ok(v) ==> exists|old: Option<Seq<char>>| v@ == #[trigger] value_with(
                old,
                domain@,
            ),
            r matches Ok(v) ==> is_entry(domain@) ==> domain_entries(v@).last() == domain@,
    {
        let mut con = match client.get_connection() {
            Ok(con) => con,
            Err(error) => return Err(error),
        };
        client.set_database(&mut con, Database::Domains);
        let existing = match read_value(&mut con, user_id) {
            Ok(existing) => existing,
            Err(error) => return Err(error),
        };
        let ghost old = stored(existing);
        let new_value = domain_list_with(existing, domain);
        proof {
            if is_entry(domain@) {
                lemma_add_then_list(old, domain@);
            }
        }
        match write_value(&mut con, user_id, new_value.as_str()) {
            Ok(()) => Ok(new_value),
            Err(error) => Err(error),
        }
    }

    /// Takes `domain` out of the list of `user_id`: `Ok(None)` where the user
    /// has no list or the list does not hold it.
    pub fn remove_domain(client: &RedisClient, user_id: &str, domain: &str) -> (r: Result<
        Option<()>,
        redis::RedisError,
    >)
        ensures
            r matches Ok(Some(_)) ==> is_entry(domain@),
    {
        let mut con = match client.get_connection() {
            Ok(con) => con,
            Err(error) => return Err(error),
        };
        client.set_database(&mut con, Database::Domains);
        let existing = match read_value(&mut con, user_id) {
            Ok(existing) => existing,
            Err(error) => return Err(error),
        };
        match domain_list_after_removal(existing, domain) {
            Some(new_value) => match write_value(&mut con, user_id, new_value.as_str()) {
                Ok(()) => Ok(Some(())),
                Err(error) => Err(error),
            },
            None => Ok(None),
        }
    }

    /// The list of `user_id`, `None` where the user has none.
    pub fn get_domains(client: &RedisClient, user_id: &str) -> (r: Result<
        Option<Vec<String>>,
        redis::RedisError,
    >)
        ensures
            r matches Ok(Some(list)) ==> exists|value: Seq<char>|
                list.deep_view() == #[trigger] domain_entries(value),
            r matches Ok(Some(list)) ==> forall|i: int|
                0 <= i < list.len() ==> is_entry(#[trigger] list[i]@),
    {
        let mut con = match client.get_connection() {
            Ok(con) => con,
            Err(error) => return Err(error),
        };
        client.set_database(&mut con, Database::Domains);
        match read_value(&mut con, user_id) {
            Ok(existing) => Ok(stored_domains(existing)),
            Err(error) => Err(error),
        }
    }

    /// Every user that has a list, with the list, in the order the server names
    /// the users. All values are read before any list is made.
    pub fn get_clients_and_domains(client: &RedisClient) -> (r: Result<
        Vec<(String, Vec<String>)>,
        redis::RedisError,
    >)
        ensures
            r matches Ok(found) ==> exists|users: Seq<Seq<char>>, values: Seq<Option<Seq<char>>>|
                values.len() == users.len() && found.deep_view() == #[trigger] users_with_lists(
                    users,
                    values,
                ),
            r matches Ok(found) ==> forall|i: int, j: int|
                0 <= i < found.len() && 0 <= j < found[i].1.len() ==> is_entry(
                    #[trigger] found[i].1[j]@,
                ),
    {
        let mut con = match client.get_connection() {
            Ok(con) => con,
            Err(error) => return Err(error),
        };
        client.set_database(&mut con, Database::Domains);
        let users = match read_keys(&mut con, "*") {
            Ok(Some(users)) => users,
            Ok(None) => Vec::new(),
            Err(error) => return Err(error),
        };
        let mut values: Vec<Option<String>> = Vec::new();
        let mut i: usize = 0;
        while i < users.len()
            invariant
                i <= users.len(),
                values.len() == i,
            decreases users.len() - i,
        {
            match read_value(&mut con, users[i].as_str()) {
                Ok(value) => values.push(value),
                Err(error) => return Err(error),
            }
            i = i + 1;
        }
        let found = lists_of(&users, &values);
        assert(values.deep_view().len() == users.deep_view().len());
        Ok(found)
    }
}

} // verus!
