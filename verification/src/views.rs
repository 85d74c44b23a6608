//! Keyed views of the two registries.
//!
//! The account registry and the transaction log are stored as vectors; their
//! contracts speak of maps. These functions build the map of a sequence and
//! relate pushes and in-place updates of the sequence to inserts on the map.
use vstd::prelude::*;

use crate::account::Account;
use crate::transaction::LoggedTransaction;

verus! {

/// The accounts of a sequence, keyed by client id. A later entry with the
/// same client shadows an earlier one; well-formed registries keep client
/// ids unique, so no shadowing occurs.
pub open spec fn client_map(s: Seq<Account>) -> Map<u16, Account>
    decreases s.len(),
{
    if s.len() == 0 {
        Map::empty()
    } else {
        client_map(s.drop_last()).insert(s.last().client, s.last())
    }
}

/// No two entries share a client id.
pub open spec fn clients_unique(s: Seq<Account>) -> bool {
    forall|i: int, j: int| 0 <= i < j < s.len() ==> s[i].client != s[j].client
}

pub proof fn lemma_client_map_contains(s: Seq<Account>, c: u16)
    ensures
        client_map(s).contains_key(c) <==> exists|i: int| 0 <= i < s.len() && s[i].client == c,
    decreases s.len(),
{
    if s.len() > 0 {
        lemma_client_map_contains(s.drop_last(), c);
        if s.last().client == c {
            assert(s[s.len() - 1].client == c);
        } else if client_map(s).contains_key(c) {
            let i = choose|i: int| 0 <= i < s.drop_last().len() && s.drop_last()[i].client == c;
            assert(s[i].client == c);
        } else if exists|i: int| 0 <= i < s.len() && s[i].client == c {
            let i = choose|i: int| 0 <= i < s.len() && s[i].client == c;
            assert(s.drop_last()[i].client == c);
        }
    }
}

pub proof fn lemma_client_map_index(s: Seq<Account>, i: int)
    requires
        clients_unique(s),
        0 <= i < s.len(),
    ensures
        client_map(s).contains_key(s[i].client),
        client_map(s)[s[i].client] == s[i],
    decreases s.len(),
{
    if i == s.len() - 1 {
        assert(s[i] == s.last());
    } else {
        assert(clients_unique(s.drop_last()));
        assert(s.drop_last()[i] == s[i]);
        lemma_client_map_index(s.drop_last(), i);
        assert(s.last().client != s[i].client);
    }
}

pub proof fn lemma_client_map_absent(s: Seq<Account>, c: u16)
    requires
        forall|i: int| 0 <= i < s.len() ==> s[i].client != c,
    ensures
        !client_map(s).contains_key(c),
{
    lemma_client_map_contains(s, c);
}

pub proof fn lemma_client_map_push(s: Seq<Account>, a: Account)
    ensures
        client_map(s.push(a)) == client_map(s).insert(a.client, a),
{
    assert(s.push(a).drop_last() =~= s);
    assert(s.push(a).last() == a);
}

pub proof fn lemma_client_map_update(s: Seq<Account>, i: int, a: Account)
    requires
        clients_unique(s),
        0 <= i < s.len(),
        a.client == s[i].client,
    ensures
        client_map(s.update(i, a)) == client_map(s).insert(a.client, a),
    decreases s.len(),
{
    let t = s.update(i, a);
    if i == s.len() - 1 {
        assert(t.drop_last() =~= s.drop_last());
        assert(t.last() == a);
        assert(client_map(t) == client_map(s.drop_last()).insert(a.client, a));
        assert(client_map(s.drop_last()).insert(s.last().client, s.last()).insert(a.client, a)
            =~= client_map(s.drop_last()).insert(a.client, a));
    } else {
        assert(clients_unique(s.drop_last()));
        assert(s.drop_last()[i] == s[i]);
        lemma_client_map_update(s.drop_last(), i, a);
        assert(t.drop_last() =~= s.drop_last().update(i, a));
        assert(t.last() == s.last());
        assert(s.last().client != a.client);
        assert(client_map(s.drop_last()).insert(a.client, a).insert(s.last().client, s.last())
            =~= client_map(s.drop_last()).insert(s.last().client, s.last()).insert(a.client, a));
    }
}

/// The logged transactions of a sequence of (transaction id, entry) pairs,
/// keyed by transaction id.
pub open spec fn log_map(s: Seq<(u32, LoggedTransaction)>) -> Map<u32, LoggedTransaction>
    decreases s.len(),
{
    if s.len() == 0 {
        Map::empty()
    } else {
        log_map(s.drop_last()).insert(s.last().0, s.last().1)
    }
}

/// No two entries share a transaction id.
pub open spec fn log_keys_unique(s: Seq<(u32, LoggedTransaction)>) -> bool {
    forall|i: int, j: int| 0 <= i < j < s.len() ==> s[i].0 != s[j].0
}

pub proof fn lemma_log_map_contains(s: Seq<(u32, LoggedTransaction)>, t: u32)
    ensures
        log_map(s).contains_key(t) <==> exists|i: int| 0 <= i < s.len() && s[i].0 == t,
    decreases s.len(),
{
    if s.len() > 0 {
        lemma_log_map_contains(s.drop_last(), t);
        if s.last().0 == t {
            assert(s[s.len() - 1].0 == t);
        } else if log_map(s).contains_key(t) {
            let i = choose|i: int| 0 <= i < s.drop_last().len() && s.drop_last()[i].0 == t;
            assert(s[i].0 == t);
        } else if exists|i: int| 0 <= i < s.len() && s[i].0 == t {
            let i = choose|i: int| 0 <= i < s.len() && s[i].0 == t;
            assert(s.drop_last()[i].0 == t);
        }
    }
}

pub proof fn lemma_log_map_index(s: Seq<(u32, LoggedTransaction)>, i: int)
    requires
        log_keys_unique(s),
        0 <= i < s.len(),
    ensures
        log_map(s).contains_key(s[i].0),
        log_map(s)[s[i].0] == s[i].1,
    decreases s.len(),
{
    if i == s.len() - 1 {
        assert(s[i] == s.last());
    } else {
        assert(log_keys_unique(s.drop_last()));
        assert(s.drop_last()[i] == s[i]);
        lemma_log_map_index(s.drop_last(), i);
        assert(s.last().0 != s[i].0);
    }
}

pub proof fn lemma_log_map_absent(s: Seq<(u32, LoggedTransaction)>, t: u32)
    requires
        forall|i: int| 0 <= i < s.len() ==> s[i].0 != t,
    ensures
        !log_map(s).contains_key(t),
{
    lemma_log_map_contains(s, t);
}

pub proof fn lemma_log_map_push(s: Seq<(u32, LoggedTransaction)>, e: (u32, LoggedTransaction))
    ensures
        log_map(s.push(e)) == log_map(s).insert(e.0, e.1),
{
    assert(s.push(e).drop_last() =~= s);
    assert(s.push(e).last() == e);
}

pub proof fn lemma_log_map_update(s: Seq<(u32, LoggedTransaction)>, i: int, e: (u32, LoggedTransaction))
    requires
        log_keys_unique(s),
        0 <= i < s.len(),
        e.0 == s[i].0,
    ensures
        log_map(s.update(i, e)) == log_map(s).insert(e.0, e.1),
    decreases s.len(),
{
    let t = s.update(i, e);
    if i == s.len() - 1 {
        assert(t.drop_last() =~= s.drop_last());
        assert(t.last() == e);
        assert(log_map(s.drop_last()).insert(s.last().0, s.last().1).insert(e.0, e.1)
            =~= log_map(s.drop_last()).insert(e.0, e.1));
    } else {
        assert(log_keys_unique(s.drop_last()));
        assert(s.drop_last()[i] == s[i]);
        lemma_log_map_update(s.drop_last(), i, e);
        assert(t.drop_last() =~= s.drop_last().update(i, e));
        assert(t.last() == s.last());
        assert(s.last().0 != e.0);
        assert(log_map(s.drop_last()).insert(e.0, e.1).insert(s.last().0, s.last().1)
            =~= log_map(s.drop_last()).insert(s.last().0, s.last().1).insert(e.0, e.1));
    }
}

} // verus!
