//! What holds of every forward manager, whatever is done with it.
use crate::detect::{PortView, RowView};
use crate::forward::{ConnectionState, ForwardSource, ForwardView, StateView};
use crate::key::KeyView;
use crate::launch;
use crate::model;
use crate::model::{ManagerView, Operation, RespawnView};
use crate::panel;
use crate::panel::{FormView, PanelView, RemoteClient};
use crate::polling::PollAction;
use crate::seqs;
use crate::text;
use vstd::prelude::*;

verus! {

/// A new manager is well formed.
pub proof fn law_seeded_wf<C>(connection: ConnectionState, keys: Seq<KeyView>)
    ensures
        ManagerView::<C>::seeded(connection, keys).wf(),
{
}

/// Adding a forward keeps a manager well formed, and the forward gets an identifier that no
/// forward has.
pub proof fn law_with_forward_wf<C>(
    m: ManagerView<C>,
    key: KeyView,
    source: ForwardSource,
    child: C,
)
    requires
        m.wf(),
    ensures
        m.with_forward(key, source, child).wf(),
        !m.has_id(m.next_id),
        m.with_forward(key, source, child).has_id(m.next_id),
{
    let after = m.with_forward(key, source, child);
    assert(after.forwards.last().id == m.next_id);
    assert(after.forwards[after.forwards.len() - 1].id == m.next_id);
}

/// Dropping forwards keeps a manager well formed.
pub proof fn law_filter_wf<C>(m: ManagerView<C>, keep: spec_fn(ForwardView<C>) -> bool)
    requires
        m.wf(),
    ensures
        (ManagerView { forwards: m.forwards.filter(keep), ..m }).wf(),
    decreases m.forwards.len(),
{
    reveal(Seq::filter);
    if m.forwards.len() > 0 {
        let t = ManagerView { forwards: m.forwards.drop_last(), ..m };
        let kept = t.forwards.filter(keep);
        law_filter_wf(t, keep);
        assert forall|i: int| 0 <= i < kept.len() implies (#[trigger] kept[i]).id
            != m.forwards.last().id by {
            assert(kept.contains(kept[i]));
            seqs::lemma_filter_contains(t.forwards, keep, kept[i]);
            let j = choose|j: int| 0 <= j < t.forwards.len() && t.forwards[j] == kept[i];
            assert(t.forwards[j] == m.forwards[j]);
        }
    }
}

/// Removing a forward keeps a manager well formed.
pub proof fn law_without_wf<C>(m: ManagerView<C>, id: nat)
    requires
        m.wf(),
    ensures
        m.without(id).wf(),
        !m.without(id).has_id(id),
{
    law_filter_wf(m, ManagerView::<C>::other_than(id));
    let kept = m.without(id).forwards;
    assert forall|i: int| 0 <= i < kept.len() implies (#[trigger] kept[i]).id != id by {
        assert(kept.contains(kept[i]));
        seqs::lemma_filter_contains(m.forwards, ManagerView::<C>::other_than(id), kept[i]);
    }
}

/// Pruning against settings keeps a manager well formed.
pub proof fn law_pruned_wf<C>(m: ManagerView<C>, desired: Seq<KeyView>)
    requires
        m.wf(),
    ensures
        m.pruned(desired).wf(),
{
    law_filter_wf(m, ManagerView::<C>::survives(desired));
}

/// Attaching a child to a forward that is not the control master's keeps a manager well formed.
pub proof fn law_with_child_wf<C>(m: ManagerView<C>, id: nat, child: C)
    requires
        m.wf(),
        !m.is_master_owned(id),
    ensures
        m.with_child(id, child).wf(),
{
}

/// A failure of a forward that is not the control master's keeps a manager well formed.
pub proof fn law_with_failure_wf<C>(m: ManagerView<C>, id: nat, message: Seq<char>)
    requires
        m.wf(),
        !m.is_master_owned(id),
    ensures
        m.with_failure(id, message).wf(),
{
}

/// A change of the connection keeps a manager well formed.
pub proof fn law_on_connection_wf<C>(m: ManagerView<C>, connection: ConnectionState)
    requires
        m.wf(),
    ensures
        m.on_connection(connection).wf(),
{
}

/// Only managed forwards are ever spawned again: never one of the control master.
pub proof fn law_respawns_are_managed<C>(m: ManagerView<C>, k: int)
    requires
        m.wf(),
        0 <= k < m.respawns().len(),
    ensures
        m.has_id(m.respawns()[k].id),
        !m.is_master_owned(m.respawns()[k].id),
        forall|c: ConnectionState| !(#[trigger] m.on_connection(c)).is_master_owned(
            m.respawns()[k].id,
        ),
{
    let dead = ManagerView::<C>::dead();
    let f = m.forwards.filter(dead)[k];
    assert(m.forwards.filter(dead).contains(f));
    seqs::lemma_filter_contains(m.forwards, dead, f);
    let i = choose|i: int| 0 <= i < m.forwards.len() && m.forwards[i] == f;
    assert(m.forwards[i].id == m.respawns()[k].id);
    assert forall|c: ConnectionState| !(#[trigger] m.on_connection(c)).is_master_owned(f.id) by {
        let after = m.on_connection(c);
        assert forall|j: int|
            0 <= j < after.forwards.len() && (#[trigger] after.forwards[j]).id == f.id implies
            after.forwards[j].managed by {
            assert(m.forwards[j].id == f.id);
            assert(m.forwards[j] == m.forwards[i]);
        }
    }
}

/// A manager that holds nothing but forwards of the control master loses none of them to
/// settings, whatever those ask for.
pub proof fn law_master_owned_survives<C>(m: ManagerView<C>, desired: Seq<KeyView>)
    requires
        forall|i: int| 0 <= i < m.forwards.len() ==> !(#[trigger] m.forwards[i]).managed,
    ensures
        m.pruned(desired) == m,
{
    seqs::lemma_filter_all(m.forwards, ManagerView::<C>::survives(desired));
}

/// Launching nothing changes nothing.
pub(crate) proof fn lemma_launched_none<C>(
    m: ManagerView<C>,
    keys: Seq<KeyView>,
    children: Seq<Option<C>>,
)
    requires
        keys.len() == 0,
        children.len() == 0,
    ensures
        m.with_launched(keys, children) == m,
{
    reveal(Seq::filter);
    assert(m.with_launched(keys, children).forwards =~= m.forwards);
}

/// Launches, one further.
pub(crate) proof fn lemma_launched_step<C>(
    m: ManagerView<C>,
    keys: Seq<KeyView>,
    children: Seq<Option<C>>,
)
    requires
        keys.len() == children.len(),
        keys.len() > 0,
    ensures
        m.with_launched(keys, children) == ({
            let before = m.with_launched(keys.drop_last(), children.drop_last());
            match children.last() {
                Some(child) => before.with_forward(keys.last(), ForwardSource::Settings, child),
                None => before,
            }
        }),
{
    reveal(Seq::filter);
    let (keys0, children0) = (keys.drop_last(), children.drop_last());
    assert(model::launch_pairs(keys, children).drop_last() == model::launch_pairs(
        keys0,
        children0,
    ));
    let before = m.with_launched(keys0, children0);
    let after = m.with_launched(keys, children);
    match children.last() {
        Some(child) => {
            assert(after.forwards =~= before.with_forward(
                keys.last(),
                ForwardSource::Settings,
                child,
            ).forwards);
        },
        None => {
            assert(after.forwards =~= before.forwards);
        },
    }
}

/// Launching forwards from settings leaves all others as they are.
proof fn lemma_launched_spares<C>(m: ManagerView<C>, keys: Seq<KeyView>, children: Seq<Option<C>>)
    requires
        keys.len() == children.len(),
    ensures
        m.with_launched(keys, children).forwards.filter(ManagerView::<C>::spared())
            == m.forwards.filter(ManagerView::<C>::spared()),
    decreases keys.len(),
{
    if keys.len() > 0 {
        lemma_launched_step(m, keys, children);
        lemma_launched_spares(m, keys.drop_last(), children.drop_last());
        let before = m.with_launched(keys.drop_last(), children.drop_last());
        if let Some(child) = children.last() {
            let after = before.with_forward(keys.last(), ForwardSource::Settings, child);
            reveal(Seq::filter);
            assert(after.forwards.drop_last() == before.forwards);
        }
    } else {
        lemma_launched_none(m, keys, children);
    }
}

/// Reconciling with settings leaves manual and master-owned forwards untouched: the same ones are
/// there before and after, in the same order and in the same state, whatever the settings ask for
/// and whichever launches succeed.
pub proof fn law_reconcile_spares_others<C>(
    m: ManagerView<C>,
    desired: Seq<KeyView>,
    children: Seq<Option<C>>,
)
    requires
        m.wf(),
        children.len() == m.missing(desired).len(),
    ensures
        m.pruned(desired).with_launched(m.missing(desired), children).forwards.filter(
            ManagerView::<C>::spared(),
        ) == m.forwards.filter(ManagerView::<C>::spared()),
{
    lemma_launched_spares(m.pruned(desired), m.missing(desired), children);
    seqs::lemma_filter_twice(
        m.forwards,
        ManagerView::<C>::survives(desired),
        ManagerView::<C>::spared(),
        ManagerView::<C>::spared(),
    );
}

/// `key` is among the keys that got a child.
spec fn got_child<C>(keys: Seq<KeyView>, children: Seq<Option<C>>, key: KeyView) -> bool {
    exists|i: int| 0 <= i < keys.len() && #[trigger] keys[i] == key && children[i] is Some
}

/// Which settings keys there are after launches.
proof fn lemma_launched_keys<C>(
    m: ManagerView<C>,
    keys: Seq<KeyView>,
    children: Seq<Option<C>>,
    key: KeyView,
)
    requires
        keys.len() == children.len(),
    ensures
        m.with_launched(keys, children).has_settings_key(key) <==> m.has_settings_key(key)
            || got_child(keys, children, key),
    decreases keys.len(),
{
    if keys.len() > 0 {
        lemma_launched_step(m, keys, children);
        let n = keys.len() - 1;
        let (keys0, children0) = (keys.drop_last(), children.drop_last());
        lemma_launched_keys(m, keys0, children0, key);
        let before = m.with_launched(keys0, children0);
        let after = m.with_launched(keys, children);
        if got_child(keys0, children0, key) {
            let i = choose|i: int|
                0 <= i < keys0.len() && #[trigger] keys0[i] == key && children0[i] is Some;
            assert(keys[i] == key && children[i] is Some);
        }
        if got_child(keys, children, key) {
            let i = choose|i: int|
                0 <= i < keys.len() && #[trigger] keys[i] == key && children[i] is Some;
            if i < n {
                assert(keys0[i] == key && children0[i] is Some);
            }
        }
        if children.last() is Some {
            assert(keys[n] == keys.last());
            assert(after.forwards.last().key == keys.last());
            assert(after.forwards[before.forwards.len() as int].key == keys.last());
            assert(forall|i: int|
                0 <= i < before.forwards.len() ==> #[trigger] after.forwards[i]
                    == before.forwards[i]);
            if before.has_settings_key(key) {
                let i = choose|i: int|
                    0 <= i < before.forwards.len() && (#[trigger] before.forwards[i]).source
                        == ForwardSource::Settings && before.forwards[i].key == key;
                assert(after.forwards[i].key == key);
            }
        }
    } else {
        lemma_launched_none(m, keys, children);
    }
}

/// Pruning keeps the settings keys that are asked for.
proof fn lemma_pruned_keys<C>(m: ManagerView<C>, desired: Seq<KeyView>, key: KeyView)
    requires
        desired.contains(key),
    ensures
        m.pruned(desired).has_settings_key(key) <==> m.has_settings_key(key),
{
    let keep = ManagerView::<C>::survives(desired);
    let after = m.pruned(desired);
    if m.has_settings_key(key) {
        let i = choose|i: int|
            0 <= i < m.forwards.len() && (#[trigger] m.forwards[i]).source
                == ForwardSource::Settings && m.forwards[i].key == key;
        assert(m.forwards.contains(m.forwards[i]));
        seqs::lemma_filter_contains(m.forwards, keep, m.forwards[i]);
        let j = choose|j: int| 0 <= j < after.forwards.len() && after.forwards[j] == m.forwards[i];
        assert(after.forwards[j].key == key);
    }
    if after.has_settings_key(key) {
        let j = choose|j: int|
            0 <= j < after.forwards.len() && (#[trigger] after.forwards[j]).source
                == ForwardSource::Settings && after.forwards[j].key == key;
        assert(after.forwards.contains(after.forwards[j]));
        seqs::lemma_filter_contains(m.forwards, keep, after.forwards[j]);
        let i = choose|i: int| 0 <= i < m.forwards.len() && m.forwards[i] == after.forwards[j];
        assert(m.forwards[i].key == key);
    }
}

/// The keys without a child are those that a filter for them picks out.
proof fn lemma_unlaunched_is_filter<C>(
    keys: Seq<KeyView>,
    children: Seq<Option<C>>,
    keep: spec_fn(KeyView) -> bool,
)
    requires
        keys.len() == children.len(),
        forall|i: int| 0 <= i < keys.len() ==> keep(#[trigger] keys[i]) == (children[i] is None),
    ensures
        keys.filter(keep) == model::unlaunched(keys, children),
    decreases keys.len(),
{
    reveal(Seq::filter);
    if keys.len() > 0 {
        let (keys0, children0) = (keys.drop_last(), children.drop_last());
        assert forall|i: int| 0 <= i < keys0.len() implies keep(#[trigger] keys0[i]) == (
        children0[i] is None) by {
            assert(keys0[i] == keys[i]);
        }
        lemma_unlaunched_is_filter(keys0, children0, keep);
        assert(keep(keys[keys.len() - 1]) == (children[keys.len() - 1] is None));
    }
}

/// Every forward that launches add survives if the launched keys are asked for.
proof fn lemma_launched_survive<C>(
    m: ManagerView<C>,
    keys: Seq<KeyView>,
    children: Seq<Option<C>>,
    desired: Seq<KeyView>,
)
    requires
        keys.len() == children.len(),
        forall|i: int| 0 <= i < keys.len() ==> desired.contains(#[trigger] keys[i]),
        forall|i: int|
            0 <= i < m.forwards.len() ==> ManagerView::<C>::survives(desired)(
                #[trigger] m.forwards[i],
            ),
    ensures
        forall|i: int|
            0 <= i < m.with_launched(keys, children).forwards.len()
                ==> ManagerView::<C>::survives(desired)(
                #[trigger] m.with_launched(keys, children).forwards[i],
            ),
    decreases keys.len(),
{
    if keys.len() > 0 {
        lemma_launched_step(m, keys, children);
        let keys0 = keys.drop_last();
        assert forall|i: int| 0 <= i < keys0.len() implies desired.contains(
            #[trigger] keys0[i],
        ) by {
            assert(keys0[i] == keys[i]);
        }
        lemma_launched_survive(m, keys0, children.drop_last(), desired);
        assert(desired.contains(keys[keys.len() - 1]));
    } else {
        lemma_launched_none(m, keys, children);
    }
}

/// Reconciling a second time with the same settings asks again for exactly the forwards that
/// could not be launched the first time, and removes nothing.
pub proof fn law_reconcile_retries_failures_only<C>(
    m: ManagerView<C>,
    desired: Seq<KeyView>,
    children: Seq<Option<C>>,
)
    requires
        m.wf(),
        children.len() == m.missing(desired).len(),
    ensures
        ({
            let after = m.pruned(desired).with_launched(m.missing(desired), children);
            &&& after.missing(desired) == model::unlaunched(m.missing(desired), children)
            &&& after.pruned(desired) == after
        }),
{
    let all = seqs::distinct(desired);
    let keys = m.missing(desired);
    let pruned = m.pruned(desired);
    let after = pruned.with_launched(keys, children);
    seqs::lemma_distinct(desired);
    seqs::lemma_filter_no_duplicates(all, m.lacks_settings_key());
    let left_out = |k: KeyView| !got_child(keys, children, k);
    assert forall|i: int| 0 <= i < all.len() implies (after.lacks_settings_key())(#[trigger] all[i])
        == ((m.lacks_settings_key())(all[i]) && left_out(all[i])) by {
        assert(all.contains(all[i]));
        lemma_pruned_keys(m, desired, all[i]);
        lemma_launched_keys(pruned, keys, children, all[i]);
    }
    seqs::lemma_filter_twice(all, m.lacks_settings_key(), left_out, after.lacks_settings_key());
    assert forall|i: int| 0 <= i < keys.len() implies left_out(#[trigger] keys[i]) == (
    children[i] is None) by {
        if got_child(keys, children, keys[i]) {
            let j = choose|j: int|
                0 <= j < keys.len() && #[trigger] keys[j] == keys[i] && children[j] is Some;
            assert(j == i);
        }
    }
    lemma_unlaunched_is_filter(keys, children, left_out);
    let keep = ManagerView::<C>::survives(desired);
    assert forall|i: int| 0 <= i < pruned.forwards.len() implies keep(
        #[trigger] pruned.forwards[i],
    ) by {
        assert(pruned.forwards.contains(pruned.forwards[i]));
        seqs::lemma_filter_contains(m.forwards, keep, pruned.forwards[i]);
    }
    assert forall|i: int| 0 <= i < keys.len() implies desired.contains(#[trigger] keys[i]) by {
        assert(keys.contains(keys[i]));
        seqs::lemma_filter_contains(all, m.lacks_settings_key(), keys[i]);
    }
    lemma_launched_survive(pruned, keys, children, desired);
    seqs::lemma_filter_all(after.forwards, keep);
}

/// Nothing is left over where every key got a child.
proof fn lemma_unlaunched_none<C>(keys: Seq<KeyView>, children: Seq<Option<C>>)
    requires
        keys.len() == children.len(),
        forall|i: int| 0 <= i < children.len() ==> (#[trigger] children[i]) is Some,
    ensures
        model::unlaunched(keys, children).len() == 0,
    decreases keys.len(),
{
    if keys.len() > 0 {
        let children0 = children.drop_last();
        assert forall|i: int| 0 <= i < children0.len() implies (#[trigger] children0[i]) is Some by {
            assert(children0[i] == children[i]);
        }
        lemma_unlaunched_none(keys.drop_last(), children0);
        assert(children[children.len() - 1] is Some);
    }
}

/// Once every launch succeeded, the forwards are in line with the settings: each one that is
/// asked for is there, each managed one from settings is asked for, and reconciling again asks
/// for nothing.
pub proof fn law_reconcile_settles<C>(
    m: ManagerView<C>,
    desired: Seq<KeyView>,
    children: Seq<Option<C>>,
)
    requires
        m.wf(),
        children.len() == m.missing(desired).len(),
        forall|i: int| 0 <= i < children.len() ==> (#[trigger] children[i]) is Some,
    ensures
        ({
            let after = m.pruned(desired).with_launched(m.missing(desired), children);
            &&& forall|k: KeyView| desired.contains(k) ==> #[trigger] after.has_settings_key(k)
            &&& forall|i: int|
                0 <= i < after.forwards.len() && (#[trigger] after.forwards[i]).is_settings_managed()
                    ==> desired.contains(after.forwards[i].key)
            &&& after.missing(desired).len() == 0
            &&& after.pruned(desired) == after
        }),
{
    let all = seqs::distinct(desired);
    let after = m.pruned(desired).with_launched(m.missing(desired), children);
    law_reconcile_retries_failures_only(m, desired, children);
    lemma_unlaunched_none(m.missing(desired), children);
    seqs::lemma_distinct(desired);
    assert forall|k: KeyView| desired.contains(k) implies #[trigger] after.has_settings_key(k) by {
        assert(all.contains(k));
        seqs::lemma_filter_contains(all, after.lacks_settings_key(), k);
        if !after.has_settings_key(k) {
            assert(after.missing(desired).contains(k));
        }
    }
    let keep = ManagerView::<C>::survives(desired);
    assert forall|i: int|
        0 <= i < after.forwards.len() && (
        #[trigger] after.forwards[i]).is_settings_managed() implies desired.contains(
        after.forwards[i].key,
    ) by {
        assert(after.forwards.contains(after.forwards[i]));
        seqs::lemma_filter_contains(after.forwards, keep, after.forwards[i]);
    }
}

/// The forwards that the control master already carries are never launched a second time for the
/// settings that they came from.
pub proof fn law_connect_time_forwards_are_not_duplicated<C>(
    connection: ConnectionState,
    keys: Seq<KeyView>,
)
    ensures
        ({
            let m = ManagerView::<C>::seeded(connection, keys);
            &&& m.missing(keys).len() == 0
            &&& m.pruned(keys) == m
        }),
{
    let m = ManagerView::<C>::seeded(connection, keys);
    let all = seqs::distinct(keys);
    seqs::lemma_distinct(keys);
    assert forall|i: int| 0 <= i < all.len() implies !(m.lacks_settings_key())(
        #[trigger] all[i],
    ) by {
        assert(all.contains(all[i]));
        let j = choose|j: int| 0 <= j < keys.len() && keys[j] == all[i];
        assert(m.forwards[j].key == all[i]);
    }
    seqs::lemma_filter_none(all, m.lacks_settings_key());
    law_master_owned_survives(m, keys);
}

/// Losing the connection leaves no child and no forward that counts as active.
pub proof fn law_lost_connection_tears_down<C>(m: ManagerView<C>, connection: ConnectionState)
    requires
        m.wf(),
        m.connection == ConnectionState::Connected,
        connection != ConnectionState::Connected,
    ensures
        forall|i: int|
            0 <= i < m.on_connection(connection).forwards.len() ==> {
                let f = #[trigger] m.on_connection(connection).forwards[i];
                f.child is None && f.state is Pending
            },
{
}

/// Outcomes of respawns change nothing of a forward but its state and its child.
proof fn lemma_respawned_keeps<C>(
    m: ManagerView<C>,
    respawns: Seq<RespawnView>,
    outcomes: Seq<Result<C, Seq<char>>>,
)
    requires
        respawns.len() == outcomes.len(),
    ensures
        ({
            let after = m.with_respawned(respawns, outcomes);
            &&& after == (ManagerView { forwards: after.forwards, ..m })
            &&& after.forwards.len() == m.forwards.len()
            &&& forall|i: int|
                0 <= i < m.forwards.len() ==> {
                    let f = #[trigger] after.forwards[i];
                    f == (ForwardView { state: f.state, child: f.child, ..m.forwards[i] })
                }
            &&& forall|i: int|
                0 <= i < m.forwards.len() && (forall|k: int|
                    0 <= k < respawns.len() ==> (#[trigger] respawns[k]).id != m.forwards[i].id)
                    ==> #[trigger] after.forwards[i] == m.forwards[i]
        }),
    decreases respawns.len(),
{
    if respawns.len() > 0 {
        let respawns0 = respawns.drop_last();
        let before = m.with_respawned(respawns0, outcomes.drop_last());
        let after = m.with_respawned(respawns, outcomes);
        lemma_respawned_keeps(m, respawns0, outcomes.drop_last());
        assert forall|i: int|
            0 <= i < m.forwards.len() && (forall|k: int|
                0 <= k < respawns.len() ==> (#[trigger] respawns[k]).id
                    != m.forwards[i].id) implies #[trigger] after.forwards[i] == m.forwards[i] by {
            assert forall|k: int| 0 <= k < respawns0.len() implies (#[trigger] respawns0[k]).id
                != m.forwards[i].id by {
                assert(respawns0[k] == respawns[k]);
            }
            assert(before.forwards[i] == m.forwards[i]);
            assert(respawns[respawns.len() - 1].id != m.forwards[i].id);
        }
    }
}

/// No forward is spawned again twice.
pub proof fn law_respawns_are_distinct<C>(m: ManagerView<C>, i: int, k: int)
    requires
        m.wf(),
        0 <= i < k < m.respawns().len(),
    ensures
        m.respawns()[i].id != m.respawns()[k].id,
{
    let dead = ManagerView::<C>::dead();
    let kept = m.forwards.filter(dead);
    law_filter_wf(m, dead);
    let filtered = ManagerView { forwards: kept, ..m };
    assert(filtered.forwards[i].id != filtered.forwards[k].id);
}

/// Each outcome of a respawn reaches its own forward, whatever the others are: a child for one
/// whose tunnel is up, the failure for one whose tunnel is not. Every other forward stays as it is,
/// and so does the rest of the manager.
pub proof fn law_respawn_outcomes<C>(
    m: ManagerView<C>,
    respawns: Seq<RespawnView>,
    outcomes: Seq<Result<C, Seq<char>>>,
)
    requires
        respawns.len() == outcomes.len(),
        forall|j: int, k: int|
            0 <= j < k < respawns.len() ==> (#[trigger] respawns[j]).id != (
            #[trigger] respawns[k]).id,
    ensures
        ({
            let after = m.with_respawned(respawns, outcomes);
            &&& after == (ManagerView { forwards: after.forwards, ..m })
            &&& after.forwards.len() == m.forwards.len()
            &&& forall|i: int, k: int|
                0 <= i < m.forwards.len() && 0 <= k < respawns.len() && (
                #[trigger] respawns[k]).id == m.forwards[i].id ==> #[trigger] after.forwards[i]
                    == m.forwards[i].respawned(outcomes[k])
            &&& forall|i: int|
                0 <= i < m.forwards.len() && (forall|k: int|
                    0 <= k < respawns.len() ==> (#[trigger] respawns[k]).id != m.forwards[i].id)
                    ==> #[trigger] after.forwards[i] == m.forwards[i]
        }),
    decreases respawns.len(),
{
    lemma_respawned_keeps(m, respawns, outcomes);
    if respawns.len() > 0 {
        let n = respawns.len() - 1;
        let respawns0 = respawns.drop_last();
        let outcomes0 = outcomes.drop_last();
        let before = m.with_respawned(respawns0, outcomes0);
        let after = m.with_respawned(respawns, outcomes);
        assert forall|j: int, k: int| 0 <= j < k < respawns0.len() implies (
        #[trigger] respawns0[j]).id != (#[trigger] respawns0[k]).id by {
            assert(respawns[j].id != respawns[k].id);
        }
        law_respawn_outcomes(m, respawns0, outcomes0);
        assert forall|i: int, k: int|
            0 <= i < m.forwards.len() && 0 <= k < respawns.len() && (#[trigger] respawns[k]).id
                == m.forwards[i].id implies #[trigger] after.forwards[i]
            == m.forwards[i].respawned(outcomes[k]) by {
            if k < n {
                assert(respawns0[k].id == m.forwards[i].id);
                assert(before.forwards[i] == m.forwards[i].respawned(outcomes0[k]));
                assert(respawns[n].id != respawns[k].id);
            } else {
                assert forall|j: int| 0 <= j < respawns0.len() implies (#[trigger] respawns0[j]).id
                    != m.forwards[i].id by {
                    assert(respawns[j].id != respawns[n].id);
                }
                assert(before.forwards[i] == m.forwards[i]);
            }
        }
    }
}

/// Losing the connection and regaining it, whichever tunnels come up again: the forwards of the
/// control master are back as they were, and each managed forward is, by the outcome of its own
/// respawn, up again or failed.
pub proof fn law_reconnection_outcomes<C>(
    m: ManagerView<C>,
    lost: ConnectionState,
    outcomes: Seq<Result<C, Seq<char>>>,
)
    requires
        m.wf(),
        m.connection == ConnectionState::Connected,
        lost != ConnectionState::Connected,
        outcomes.len() == m.on_connection(lost).respawns_on(ConnectionState::Connected).len(),
    ensures
        ({
            let down = m.on_connection(lost);
            let respawns = down.respawns_on(ConnectionState::Connected);
            let up = down.on_connection(ConnectionState::Connected).with_respawned(
                respawns,
                outcomes,
            );
            &&& up == (ManagerView { forwards: up.forwards, ..m })
            &&& up.forwards.len() == m.forwards.len()
            &&& forall|i: int|
                0 <= i < m.forwards.len() && !m.forwards[i].managed ==> #[trigger] up.forwards[i]
                    == m.forwards[i]
            &&& forall|i: int, k: int|
                0 <= i < m.forwards.len() && 0 <= k < respawns.len() && (
                #[trigger] respawns[k]).id == m.forwards[i].id ==> #[trigger] up.forwards[i]
                    == m.forwards[i].respawned(outcomes[k])
            &&& forall|i: int|
                0 <= i < m.forwards.len() && (#[trigger] m.forwards[i]).managed ==> exists|k: int|
                    0 <= k < respawns.len() && (#[trigger] respawns[k]).id == m.forwards[i].id
        }),
{
    let down = m.on_connection(lost);
    let dead = ManagerView::<C>::dead();
    let respawns = down.respawns_on(ConnectionState::Connected);
    let back = down.on_connection(ConnectionState::Connected);
    let up = back.with_respawned(respawns, outcomes);
    law_on_connection_wf(m, lost);
    assert forall|j: int, k: int| 0 <= j < k < respawns.len() implies (#[trigger] respawns[j]).id
        != (#[trigger] respawns[k]).id by {
        law_respawns_are_distinct(down, j, k);
    }
    law_respawn_outcomes(back, respawns, outcomes);
    assert forall|i: int| 0 <= i < m.forwards.len() && !m.forwards[i].managed implies
        #[trigger] up.forwards[i] == m.forwards[i] by {
        assert forall|k: int| 0 <= k < respawns.len() implies (#[trigger] respawns[k]).id
            != back.forwards[i].id by {
            law_respawns_are_managed(down, k);
            assert(down.forwards[i].id == back.forwards[i].id);
        }
        assert(up.forwards[i] == back.forwards[i]);
        assert(m.forwards[i].wf(m.connection));
    }
    assert forall|i: int, k: int|
        0 <= i < m.forwards.len() && 0 <= k < respawns.len() && (#[trigger] respawns[k]).id
            == m.forwards[i].id implies #[trigger] up.forwards[i] == m.forwards[i].respawned(
        outcomes[k],
    ) by {
        assert(respawns[k].id == back.forwards[i].id);
        assert(up.forwards[i] == back.forwards[i].respawned(outcomes[k]));
        law_respawns_are_managed(down, k);
        assert(down.forwards[i].id == respawns[k].id);
        assert(m.forwards[i].managed);
    }
    assert forall|i: int|
        0 <= i < m.forwards.len() && (#[trigger] m.forwards[i]).managed implies exists|k: int|
        0 <= k < respawns.len() && (#[trigger] respawns[k]).id == m.forwards[i].id by {
        let f = down.forwards[i];
        assert(down.forwards.contains(f));
        seqs::lemma_filter_contains(down.forwards, dead, f);
        let k = choose|k: int|
            0 <= k < down.forwards.filter(dead).len() && down.forwards.filter(dead)[k] == f;
        assert(respawns[k].id == m.forwards[i].id);
    }
}

/// Losing the connection and regaining it brings every forward back: a tunnel is asked for again
/// for exactly the managed forwards, with the same endpoints and in order, and once all of these
/// are up every forward is active again, under its old identifier and with its old endpoints.
pub proof fn law_reconnection_restores<C>(
    m: ManagerView<C>,
    lost: ConnectionState,
    outcomes: Seq<Result<C, Seq<char>>>,
)
    requires
        m.wf(),
        m.connection == ConnectionState::Connected,
        lost != ConnectionState::Connected,
        outcomes.len() == m.on_connection(lost).respawns_on(ConnectionState::Connected).len(),
        forall|j: int| 0 <= j < outcomes.len() ==> (#[trigger] outcomes[j]) is Ok,
    ensures
        ({
            let down = m.on_connection(lost);
            let respawns = down.respawns_on(ConnectionState::Connected);
            let up = down.on_connection(ConnectionState::Connected).with_respawned(
                respawns,
                outcomes,
            );
            &&& respawns == m.forwards.filter(|f: ForwardView<C>| f.managed).map_values(
                |f: ForwardView<C>| f.respawn(),
            )
            &&& up.connection == ConnectionState::Connected
            &&& up.next_id == m.next_id
            &&& up.forwards.len() == m.forwards.len()
            &&& forall|i: int|
                0 <= i < m.forwards.len() ==> {
                    let f = #[trigger] up.forwards[i];
                    &&& f == (ForwardView {
                        state: StateView::Active,
                        child: f.child,
                        ..m.forwards[i]
                    })
                    &&& f.child is Some <==> f.managed
                }
        }),
{
    let down = m.on_connection(lost);
    let respawns = down.respawns_on(ConnectionState::Connected);
    let up = down.on_connection(ConnectionState::Connected).with_respawned(respawns, outcomes);
    lemma_torn_down_respawns(m.forwards);
    assert(down.forwards == m.torn_down().forwards);
    law_reconnection_outcomes(m, lost, outcomes);
    assert forall|i: int| 0 <= i < m.forwards.len() implies ({
        let f = #[trigger] up.forwards[i];
        &&& f == (ForwardView { state: StateView::Active, child: f.child, ..m.forwards[i] })
        &&& f.child is Some <==> f.managed
    }) by {
        assert(m.forwards[i].wf(m.connection));
        if m.forwards[i].managed {
            let k = choose|k: int|
                0 <= k < respawns.len() && (#[trigger] respawns[k]).id == m.forwards[i].id;
            assert(outcomes[k] is Ok);
            assert(up.forwards[i] == m.forwards[i].respawned(outcomes[k]));
        }
    }
}

/// After a lost connection the dead forwards are the managed ones.
proof fn lemma_torn_down_respawns<C>(s: Seq<ForwardView<C>>)
    ensures
        s.map_values(|f: ForwardView<C>| f.torn_down()).filter(
            ManagerView::<C>::dead(),
        ).map_values(|f: ForwardView<C>| f.respawn()) == s.filter(
            |f: ForwardView<C>| f.managed,
        ).map_values(|f: ForwardView<C>| f.respawn()),
    decreases s.len(),
{
    reveal(Seq::filter);
    let tear = |f: ForwardView<C>| f.torn_down();
    let respawn = |f: ForwardView<C>| f.respawn();
    let managed = |f: ForwardView<C>| f.managed;
    let dead = ManagerView::<C>::dead();
    if s.len() > 0 {
        let t = s.drop_last();
        lemma_torn_down_respawns(t);
        assert(s.map_values(tear).drop_last() == t.map_values(tear));
        if s.last().managed {
            assert(s.map_values(tear).filter(dead) == t.map_values(tear).filter(dead).push(
                s.last().torn_down(),
            ));
            assert(s.map_values(tear).filter(dead).map_values(respawn) == t.map_values(tear).filter(
                dead,
            ).map_values(respawn).push(s.last().respawn()));
            assert(s.filter(managed).map_values(respawn) == t.filter(managed).map_values(
                respawn,
            ).push(s.last().respawn()));
        } else {
            assert(s.map_values(tear).filter(dead) == t.map_values(tear).filter(dead));
        }
    } else {
        assert(s.map_values(tear).filter(dead).map_values(respawn) =~= s.filter(
            managed,
        ).map_values(respawn));
    }
}

/// A filter of the forwards leads on from them.
proof fn lemma_filter_leads_to<C>(m: ManagerView<C>, keep: spec_fn(ForwardView<C>) -> bool)
    ensures
        m.leads_to(ManagerView { forwards: m.forwards.filter(keep), ..m }),
{
    let kept = m.forwards.filter(keep);
    assert forall|i: int| 0 <= i < kept.len() implies m.has_kin(#[trigger] kept[i]) by {
        assert(kept.contains(kept[i]));
        seqs::lemma_filter_contains(m.forwards, keep, kept[i]);
        let j = choose|j: int| 0 <= j < m.forwards.len() && m.forwards[j] == kept[i];
        assert(m.forwards[j].id == kept[i].id);
    }
}

/// Forwards that differ at most in state and child lead on from each other.
proof fn lemma_same_kin_leads_to<C>(m: ManagerView<C>, later: ManagerView<C>)
    requires
        m.next_id <= later.next_id,
        m.auto_forwarded.subset_of(later.auto_forwarded),
        m.forwards.len() == later.forwards.len(),
        forall|i: int|
            0 <= i < m.forwards.len() ==> {
                let f = #[trigger] later.forwards[i];
                f == (ForwardView { state: f.state, child: f.child, ..m.forwards[i] })
            },
    ensures
        m.leads_to(later),
{
    assert forall|i: int| 0 <= i < later.forwards.len() implies m.has_kin(
        #[trigger] later.forwards[i],
    ) by {
        assert(m.forwards[i].id == later.forwards[i].id);
    }
}

/// What every operation keeps: the manager stays well formed, identifiers and automatically
/// forwarded ports only grow, and no operation gives a forward other endpoints or another origin.
pub proof fn law_every_operation<C>(m: ManagerView<C>, op: Operation<C>)
    requires
        m.wf(),
        m.accepts(op),
    ensures
        m.after(op).wf(),
        m.leads_to(m.after(op)),
{
    match op {
        Operation::Add { key, source, child } => {
            law_with_forward_wf(m, key, source, child);
            let later = m.with_forward(key, source, child);
            assert forall|i: int|
                0 <= i < later.forwards.len() && (#[trigger] later.forwards[i]).id
                    < m.next_id implies m.has_kin(later.forwards[i]) by {
                assert(m.forwards[i] == later.forwards[i]);
            }
        },
        Operation::SpendId => {
            lemma_same_kin_leads_to(m, m.after(op));
        },
        Operation::Remove { id } => {
            law_without_wf(m, id);
            lemma_filter_leads_to(m, ManagerView::<C>::other_than(id));
        },
        Operation::Attach { id, child } => {
            law_with_child_wf(m, id, child);
            lemma_same_kin_leads_to(m, m.after(op));
        },
        Operation::Fail { id, message } => {
            law_with_failure_wf(m, id, message);
            lemma_same_kin_leads_to(m, m.after(op));
        },
        Operation::Connection { connection } => {
            law_on_connection_wf(m, connection);
            lemma_same_kin_leads_to(m, m.after(op));
        },
        Operation::Prune { desired } => {
            law_pruned_wf(m, desired);
            lemma_filter_leads_to(m, ManagerView::<C>::survives(desired));
        },
        Operation::Launch { keys, children } => {
            law_launched_wf(m, keys, children);
            let later = m.with_launched(keys, children);
            assert forall|i: int|
                0 <= i < later.forwards.len() && (#[trigger] later.forwards[i]).id
                    < m.next_id implies m.has_kin(later.forwards[i]) by {
                assert(i < m.forwards.len());
                assert(m.forwards[i] == later.forwards[i]);
            }
        },
        Operation::Respawn { respawns, outcomes } => {
            law_respawned_wf(m, respawns, outcomes);
            lemma_respawned_keeps(m, respawns, outcomes);
            lemma_same_kin_leads_to(m, m.after(op));
        },
        Operation::Report { .. } => {
            lemma_same_kin_leads_to(m, m.after(op));
        },
        Operation::Polling { .. } => {
            lemma_same_kin_leads_to(m, m.after(op));
        },
    }
}

/// What any number of operations keeps, one after the other.
pub proof fn law_all_operations<C>(m: ManagerView<C>, ops: Seq<Operation<C>>)
    requires
        m.wf(),
        m.accepts_all(ops),
    ensures
        m.after_all(ops).wf(),
        m.leads_to(m.after_all(ops)),
    decreases ops.len(),
{
    if ops.len() == 0 {
        lemma_same_kin_leads_to(m, m);
    } else {
        let before = m.after_all(ops.drop_last());
        let later = m.after_all(ops);
        law_all_operations(m, ops.drop_last());
        law_every_operation(before, ops.last());
        assert forall|i: int|
            0 <= i < later.forwards.len() && (#[trigger] later.forwards[i]).id
                < m.next_id implies m.has_kin(later.forwards[i]) by {
            let f = later.forwards[i];
            assert(before.has_kin(f));
            let j = choose|j: int|
                0 <= j < before.forwards.len() && (#[trigger] before.forwards[j]).id == f.id
                    && before.forwards[j].key == f.key && before.forwards[j].source == f.source
                    && before.forwards[j].managed == f.managed;
            assert(m.has_kin(before.forwards[j]));
        }
    }
}

/// A port that was forwarded automatically is never forwarded automatically again: neither for the
/// same report, should that name it more than once, nor for a later one, whatever happens to its
/// forward in between.
pub proof fn law_auto_forward_once<C>(
    m: ManagerView<C>,
    ports: Seq<PortView>,
    ops: Seq<Operation<C>>,
    later_ports: Seq<PortView>,
    port: u16,
)
    requires
        m.wf(),
        m.auto_ports(ports).contains(port),
        m.reported(ports, true).accepts_all(ops),
    ensures
        m.auto_ports(ports).no_duplicates(),
        !m.reported(ports, true).after_all(ops).auto_ports(later_ports).contains(port),
{
    let reported = m.reported(ports, true);
    let later = reported.after_all(ops);
    law_every_operation(m, Operation::Report { ports, auto_forward: true });
    law_all_operations(reported, ops);
    let numbers = seqs::distinct(ports.map_values(|p: PortView| p.number()));
    seqs::lemma_distinct(ports.map_values(|p: PortView| p.number()));
    seqs::lemma_filter_no_duplicates(numbers, m.is_new_port());
    let later_numbers = seqs::distinct(later_ports.map_values(|p: PortView| p.number()));
    seqs::lemma_filter_contains(later_numbers, later.is_new_port(), port);
    assert(m.auto_ports(ports).to_set().contains(port));
    assert(reported.auto_forwarded.contains(port));
}

/// Only reported ports that no forward leads to are forwarded automatically.
pub proof fn law_auto_forward_only_new<C>(m: ManagerView<C>, ports: Seq<PortView>, port: u16)
    requires
        m.auto_ports(ports).contains(port),
    ensures
        !m.forwards_to(port),
        exists|i: int| 0 <= i < ports.len() && (#[trigger] ports[i]).number() == port,
{
    let numbers = ports.map_values(|p: PortView| p.number());
    seqs::lemma_distinct(numbers);
    seqs::lemma_filter_contains(seqs::distinct(numbers), m.is_new_port(), port);
    let i = choose|i: int| 0 <= i < numbers.len() && numbers[i] == port;
    assert(ports[i].number() == port);
}

/// A detected port is shown exactly as long as no forward leads to it.
pub proof fn law_detected_rows_are_unforwarded<C>(m: ManagerView<C>, row: RowView)
    ensures
        m.detected_rows().contains(row) <==> !m.forwards_to(row.port) && (exists|i: int|
            0 <= i < m.detected.len() && (#[trigger] m.detected[i]).row() == row),
{
    let keep = m.is_unforwarded();
    let kept = m.detected.filter(keep);
    if m.detected_rows().contains(row) {
        let k = choose|k: int| 0 <= k < m.detected_rows().len() && m.detected_rows()[k] == row;
        assert(kept.contains(kept[k]));
        seqs::lemma_filter_contains(m.detected, keep, kept[k]);
        let i = choose|i: int| 0 <= i < m.detected.len() && m.detected[i] == kept[k];
        assert(m.detected[i].row() == row);
    }
    if !m.forwards_to(row.port) && (exists|i: int|
        0 <= i < m.detected.len() && (#[trigger] m.detected[i]).row() == row) {
        let i = choose|i: int|
            0 <= i < m.detected.len() && (#[trigger] m.detected[i]).row() == row;
        assert(m.detected.contains(m.detected[i]));
        seqs::lemma_filter_contains(m.detected, keep, m.detected[i]);
        let k = choose|k: int| 0 <= k < kept.len() && kept[k] == m.detected[i];
        assert(m.detected_rows()[k] == row);
    }
}

/// Removing a forward that was just added leaves only a spent identifier behind.
pub proof fn law_remove_undoes_add<C>(
    m: ManagerView<C>,
    key: KeyView,
    source: ForwardSource,
    child: C,
)
    requires
        m.wf(),
    ensures
        m.with_forward(key, source, child).without(m.next_id) == m.id_spent(),
{
    reveal(Seq::filter);
    let after = m.with_forward(key, source, child);
    assert(after.forwards.drop_last() == m.forwards);
    seqs::lemma_filter_all(m.forwards, ManagerView::<C>::other_than(m.next_id));
    assert(after.without(m.next_id) =~= m.id_spent());
}

/// Removing a forward leaves all others as they are.
pub proof fn law_remove_keeps_others<C>(m: ManagerView<C>, id: nat, f: ForwardView<C>)
    ensures
        m.without(id).forwards.contains(f) <==> m.forwards.contains(f) && f.id != id,
{
    seqs::lemma_filter_contains(m.forwards, ManagerView::<C>::other_than(id), f);
}

/// Late news of a forward that is gone changes nothing.
pub proof fn law_late_news_is_ignored<C>(m: ManagerView<C>, id: nat, child: C, message: Seq<char>)
    requires
        !m.has_id(id),
    ensures
        m.with_child(id, child) == m,
        m.with_failure(id, message) == m,
{
    assert(m.with_child(id, child).forwards =~= m.forwards);
    assert(m.with_failure(id, message).forwards =~= m.forwards);
}

/// The identifier of a removed forward is never given out again, whatever is done afterwards.
pub proof fn law_ids_are_not_reused<C>(m: ManagerView<C>, id: nat, ops: Seq<Operation<C>>)
    requires
        m.wf(),
        m.has_id(id),
        m.without(id).accepts_all(ops),
    ensures
        !m.without(id).after_all(ops).has_id(id),
{
    let removed = m.without(id);
    let later = removed.after_all(ops);
    law_without_wf(m, id);
    law_all_operations(removed, ops);
    if later.has_id(id) {
        let i = choose|i: int|
            0 <= i < later.forwards.len() && (#[trigger] later.forwards[i]).id == id;
        assert(removed.has_kin(later.forwards[i]));
    }
}

/// Applying the difference between the desired and the existing keys leaves exactly the desired
/// ones and those that are not managed. In particular no unmanaged key is ever torn down.
pub proof fn law_diff_applied(desired: Set<KeyView>, existing: Set<KeyView>, managed: Set<KeyView>)
    requires
        managed.subset_of(existing),
    ensures
        existing.difference(managed.difference(desired)).union(desired.difference(existing))
            == desired.union(existing.difference(managed)),
        forall|k: KeyView|
            managed.difference(desired).contains(k) ==> #[trigger] managed.contains(k)
                && !desired.difference(existing).contains(k),
{
    assert(existing.difference(managed.difference(desired)).union(desired.difference(existing))
        =~= desired.union(existing.difference(managed)));
}

/// Hiding the panel forgets the last report, and showing it again does not bring it back.
pub proof fn law_hidden_panel_detects_nothing<C>(m: ManagerView<C>)
    ensures
        m.with_polling(false).detected_rows().len() == 0,
        m.with_polling(false).with_polling(true).detected_rows().len() == 0,
{
    reveal(Seq::filter);
}

/// There is a wait between any two queries for listening ports.
pub proof fn law_queries_are_spaced(
    last: PollAction,
    connection: Option<ConnectionState>,
    later: Option<ConnectionState>,
)
    requires
        last.then_do(connection) == PollAction::Query,
    ensures
        connection == Some(ConnectionState::Connected),
        last.then_do(connection).then_do(later) == PollAction::Sleep,
{
}

/// A panel creates its manager once: whatever becomes of the remote client later, the manager
/// stays. Local projects, remotes that are no SSH connection and remotes that share the network
/// interface do not lead to one.
pub proof fn law_manager_is_created_once<C>(
    p: PanelView<C>,
    remote: Option<RemoteClient>,
    later: Option<RemoteClient>,
)
    ensures
        p.ensured(remote).manager is Some <==> p.manager is Some || panel::needs_forwarding(remote),
        p.ensured(remote).manager is Some ==> p.ensured(remote).ensured(later) == p.ensured(remote),
{
}

/// A form that was used asks for nothing until a remote port is written in it again.
pub proof fn law_used_form_asks_for_nothing(form: FormView)
    ensures
        form.used().launch() is None,
        form.used().remote_host == form.remote_host,
{
}

/// Lowering the case twice is the same as once.
pub proof fn law_lowered_twice(s: Seq<char>)
    ensures
        text::lowered(text::lowered(s)) == text::lowered(s),
{
    assert forall|i: int| 0 <= i < s.len() implies text::ascii_lower(
        text::ascii_lower(#[trigger] s[i]),
    ) == text::ascii_lower(s[i]) by {
    }
    assert(text::lowered(text::lowered(s)) =~= text::lowered(s));
}

/// Whether a line tells a bind failure does not depend on the case of its letters.
pub proof fn law_bind_failure_ignores_case(line: Seq<char>, other: Seq<char>)
    requires
        text::lowered(line) == text::lowered(other),
    ensures
        launch::tells_bind_failure(line) == launch::tells_bind_failure(other),
{
}

/// White space alone.
pub open spec fn blank(s: Seq<char>) -> bool {
    forall|i: int| 0 <= i < s.len() ==> text::is_white_space(#[trigger] s[i])
}

/// Leading white space is dropped.
proof fn lemma_trimmed_start_blank(pad: Seq<char>, s: Seq<char>)
    requires
        blank(pad),
        s.len() > 0 ==> !text::is_white_space(s.first()),
    ensures
        text::trimmed_start(pad + s) == s,
    decreases pad.len(),
{
    if pad.len() > 0 {
        let rest = pad.drop_first();
        assert forall|i: int| 0 <= i < rest.len() implies text::is_white_space(
            #[trigger] rest[i],
        ) by {
            assert(rest[i] == pad[i + 1]);
        }
        assert(text::is_white_space(pad[0]));
        lemma_trimmed_start_blank(rest, s);
        assert((pad + s).drop_first() == rest + s);
    } else {
        assert(pad + s == s);
    }
}

/// Trailing white space is dropped.
proof fn lemma_trimmed_end_blank(s: Seq<char>, pad: Seq<char>)
    requires
        blank(pad),
        s.len() > 0 ==> !text::is_white_space(s.last()),
    ensures
        text::trimmed_end(s + pad) == s,
    decreases pad.len(),
{
    if pad.len() > 0 {
        let rest = pad.drop_last();
        assert forall|i: int| 0 <= i < rest.len() implies text::is_white_space(
            #[trigger] rest[i],
        ) by {
            assert(rest[i] == pad[i]);
        }
        assert(text::is_white_space(pad[pad.len() - 1]));
        lemma_trimmed_end_blank(s, rest);
        assert((s + pad).drop_last() == s + rest);
    } else {
        assert(s + pad == s);
    }
}

/// A decimal number is made of digits and stands for the number that it writes.
pub(crate) proof fn lemma_decimal(n: nat)
    ensures
        text::decimal(n).len() > 0,
        text::all_digits(text::decimal(n)),
        text::digits_value(text::decimal(n)) == n,
    decreases n,
{
    let s = text::decimal(n);
    if n < 10 {
        assert(s.drop_last() =~= Seq::<char>::empty());
        assert(text::digits_value(s.drop_last()) == 0);
    } else {
        lemma_decimal(n / 10);
        assert(s.drop_last() == text::decimal(n / 10));
        assert(n == (n / 10) * 10 + n % 10);
    }
}

/// Reading a port back from its decimal form gives the port, with or without white space around
/// it.
pub proof fn law_parse_port_reads_back(port: u16, before: Seq<char>, after: Seq<char>)
    requires
        blank(before),
        blank(after),
    ensures
        panel::port_of(before + text::decimal(port as nat) + after) == Some(port),
{
    let s = text::decimal(port as nat);
    lemma_decimal(port as nat);
    assert(text::is_digit(s[0]));
    assert(text::is_digit(s[s.len() - 1]));
    assert(before + s + after == before + (s + after));
    lemma_trimmed_start_blank(before, s + after);
    lemma_trimmed_end_blank(s, after);
}

/// Launches for settings keep a manager well formed, and each spends at most one identifier.
pub proof fn law_launched_wf<C>(m: ManagerView<C>, keys: Seq<KeyView>, children: Seq<Option<C>>)
    requires
        m.wf(),
        keys.len() == children.len(),
    ensures
        m.with_launched(keys, children).wf(),
        m.next_id <= m.with_launched(keys, children).next_id <= m.next_id + keys.len(),
    decreases keys.len(),
{
    if keys.len() > 0 {
        lemma_launched_step(m, keys, children);
        law_launched_wf(m, keys.drop_last(), children.drop_last());
        let before = m.with_launched(keys.drop_last(), children.drop_last());
        if let Some(child) = children.last() {
            law_with_forward_wf(before, keys.last(), ForwardSource::Settings, child);
        }
    } else {
        lemma_launched_none(m, keys, children);
    }
}

/// The first launches spend no more identifiers than all of them.
pub(crate) proof fn lemma_launched_grows<C>(
    m: ManagerView<C>,
    keys: Seq<KeyView>,
    children: Seq<Option<C>>,
    i: int,
)
    requires
        keys.len() == children.len(),
        0 <= i <= keys.len(),
    ensures
        m.with_launched(keys.take(i), children.take(i)).next_id <= m.with_launched(
            keys,
            children,
        ).next_id,
    decreases keys.len(),
{
    if i == keys.len() {
        assert(keys.take(i) == keys);
        assert(children.take(i) == children);
    } else {
        lemma_launched_step(m, keys, children);
        lemma_launched_grows(m, keys.drop_last(), children.drop_last(), i);
        assert(keys.drop_last().take(i) == keys.take(i));
        assert(children.drop_last().take(i) == children.take(i));
    }
}

/// Outcomes of respawns keep a manager well formed, and the control master keeps its forwards.
pub proof fn law_respawned_wf<C>(
    m: ManagerView<C>,
    respawns: Seq<RespawnView>,
    outcomes: Seq<Result<C, Seq<char>>>,
)
    requires
        m.wf(),
        respawns.len() == outcomes.len(),
        forall|k: int|
            0 <= k < respawns.len() ==> !m.is_master_owned((#[trigger] respawns[k]).id),
    ensures
        m.with_respawned(respawns, outcomes).wf(),
        forall|id: nat| #[trigger]
            m.with_respawned(respawns, outcomes).is_master_owned(id) <==> m.is_master_owned(id),
    decreases respawns.len(),
{
    lemma_respawned_keeps(m, respawns, outcomes);
    let after = m.with_respawned(respawns, outcomes);
    assert forall|id: nat| #[trigger] after.is_master_owned(id) <==> m.is_master_owned(id) by {
        if after.is_master_owned(id) {
            let i = choose|i: int|
                0 <= i < after.forwards.len() && (#[trigger] after.forwards[i]).id == id
                    && !after.forwards[i].managed;
            assert(m.forwards[i].id == id);
        }
        if m.is_master_owned(id) {
            let i = choose|i: int|
                0 <= i < m.forwards.len() && (#[trigger] m.forwards[i]).id == id
                    && !m.forwards[i].managed;
            assert(after.forwards[i].id == id);
        }
    }
    if respawns.len() > 0 {
        let respawns0 = respawns.drop_last();
        assert forall|k: int| 0 <= k < respawns0.len() implies !m.is_master_owned(
            (#[trigger] respawns0[k]).id,
        ) by {
            assert(respawns0[k] == respawns[k]);
        }
        law_respawned_wf(m, respawns0, outcomes.drop_last());
        let before = m.with_respawned(respawns0, outcomes.drop_last());
        let id = respawns[respawns.len() - 1].id;
        assert(!m.is_master_owned(id));
        match outcomes.last() {
            Ok(child) => law_with_child_wf(before, id, child),
            Err(message) => law_with_failure_wf(before, id, message),
        }
    }
}

} // verus!
