//! Forwards as settings name them, and the difference between two sets of them.
use crate::seqs;
use vstd::prelude::*;

verus! {

/// A port forward as it is written in the settings of an SSH connection.
#[derive(Debug)]
pub struct SshPortForwardOption {
    pub local_host: Option<String>,
    pub local_port: u16,
    pub remote_host: Option<String>,
    pub remote_port: u16,
}

/// Identifies a forward by its endpoints, for diffing against settings.
#[derive(Debug, PartialEq, Eq, Hash)]
pub struct ForwardKey {
    pub local_host: String,
    pub local_port: u16,
    pub remote_host: String,
    pub remote_port: u16,
}

/// The endpoints of a forward.
#[verifier::ext_equal]
pub struct KeyView {
    pub local_host: Seq<char>,
    pub local_port: u16,
    pub remote_host: Seq<char>,
    pub remote_port: u16,
}

impl View for ForwardKey {
    type V = KeyView;

    open spec fn view(&self) -> KeyView {
        KeyView {
            local_host: self.local_host@,
            local_port: self.local_port,
            remote_host: self.remote_host@,
            remote_port: self.remote_port,
        }
    }
}

/// A host that may be left out; `localhost` stands in for it, as it does in `ssh -L`.
pub open spec fn host_or_localhost(host: Option<String>) -> Seq<char> {
    match host {
        Some(h) => h@,
        None => "localhost"@,
    }
}

impl SshPortForwardOption {
    /// The endpoints that the option stands for.
    pub open spec fn key(self) -> KeyView {
        KeyView {
            local_host: host_or_localhost(self.local_host),
            local_port: self.local_port,
            remote_host: host_or_localhost(self.remote_host),
            remote_port: self.remote_port,
        }
    }
}

/// The endpoints that each of `options` stands for.
pub open spec fn option_keys(options: Seq<SshPortForwardOption>) -> Seq<KeyView> {
    options.map_values(|o: SshPortForwardOption| o.key())
}

/// The endpoints of each of `keys`.
pub open spec fn key_views(keys: Seq<ForwardKey>) -> Seq<KeyView> {
    keys.map_values(|k: ForwardKey| k@)
}

/// `host`, or `localhost` where there is none.
fn or_localhost(host: &Option<String>) -> (r: String)
    ensures
        r@ == host_or_localhost(*host),
{
    match host {
        Some(h) => h.clone(),
        None => "localhost".to_string(),
    }
}

impl Clone for ForwardKey {
    fn clone(&self) -> (r: Self)
        ensures
            r@ == self@,
    {
        ForwardKey {
            local_host: self.local_host.clone(),
            local_port: self.local_port,
            remote_host: self.remote_host.clone(),
            remote_port: self.remote_port,
        }
    }
}

impl ForwardKey {
    /// The endpoints that `option` stands for, with the defaults of `ssh -L`.
    pub fn from_option(option: &SshPortForwardOption) -> (key: Self)
        ensures
            key@ == option.key(),
            key.local_port == option.local_port,
            key.remote_port == option.remote_port,
            key.local_host@ == (match option.local_host {
                Some(host) => host@,
                None => "localhost"@,
            }),
            key.remote_host@ == (match option.remote_host {
                Some(host) => host@,
                None => "localhost"@,
            }),
    {
        ForwardKey {
            local_host: or_localhost(&option.local_host),
            local_port: option.local_port,
            remote_host: or_localhost(&option.remote_host),
            remote_port: option.remote_port,
        }
    }

    /// Whether both name the same endpoints.
    pub fn same(&self, other: &ForwardKey) -> (b: bool)
        ensures
            b == (self@ == other@),
            b <==> {
                &&& self.local_host@ == other.local_host@
                &&& self.local_port == other.local_port
                &&& self.remote_host@ == other.remote_host@
                &&& self.remote_port == other.remote_port
            },
    {
        self.local_port == other.local_port && self.remote_port == other.remote_port
            && self.local_host == other.local_host && self.remote_host == other.remote_host
    }
}

/// Whether `key` is among `keys`.
fn holds_key(keys: &Vec<ForwardKey>, key: &ForwardKey) -> (b: bool)
    ensures
        b == key_views(keys@).contains(key@),
{
    let mut i: usize = 0;
    while i < keys.len()
        invariant
            i <= keys@.len(),
            forall|j: int| 0 <= j < i ==> #[trigger] key_views(keys@)[j] != key@,
        decreases keys@.len() - i,
    {
        if keys[i].same(key) {
            assert(key_views(keys@)[i as int] == key@);
            return true;
        }
        i += 1;
    }
    false
}

/// A set of forward keys, which remembers the order in which they came in.
pub struct KeySet {
    keys: Vec<ForwardKey>,
}

impl View for KeySet {
    type V = Set<KeyView>;

    open spec fn view(&self) -> Set<KeyView> {
        self.order().to_set()
    }
}

impl KeySet {
    /// The keys in the order in which they came in.
    pub closed spec fn order(self) -> Seq<KeyView> {
        key_views(self.keys@)
    }

    #[verifier::type_invariant]
    spec fn no_key_twice(self) -> bool {
        key_views(self.keys@).no_duplicates()
    }

    /// The set of `keys`, each where it first occurs.
    pub fn from_keys(keys: Vec<ForwardKey>) -> (r: Self)
        ensures
            r.order() == seqs::distinct(key_views(keys@)),
            r.order().no_duplicates(),
            r@ == key_views(keys@).to_set(),
    {
        let ghost all = key_views(keys@);
        let mut kept: Vec<ForwardKey> = Vec::new();
        let mut i: usize = 0;
        while i < keys.len()
            invariant
                i <= keys@.len(),
                all == key_views(keys@),
                key_views(kept@) == seqs::distinct(all.take(i as int)),
            decreases keys@.len() - i,
        {
            proof {
                seqs::lemma_distinct_take(all, i as int);
            }
            if !holds_key(&kept, &keys[i]) {
                let ghost before = kept@;
                kept.push(keys[i].clone());
                assert(key_views(kept@) == key_views(before).push(all[i as int]));
            }
            i += 1;
        }
        proof {
            assert(all.take(all.len() as int) == all);
            seqs::lemma_distinct(all);
            assert(seqs::distinct(all).to_set() =~= all.to_set());
        }
        KeySet { keys: kept }
    }

    /// Whether `key` is in the set.
    pub fn contains(&self, key: &ForwardKey) -> (b: bool)
        ensures
            b == self@.contains(key@),
    {
        holds_key(&self.keys, key)
    }

    /// The keys in the order in which they came in.
    pub fn keys(&self) -> (r: &Vec<ForwardKey>)
        ensures
            key_views(r@) == self.order(),
            self.order().no_duplicates(),
    {
        proof {
            use_type_invariant(self);
        }
        &self.keys
    }

    /// The keys of this set that `other` lacks, in order.
    fn difference(&self, other: &KeySet) -> (r: Vec<ForwardKey>)
        ensures
            key_views(r@) == self.order().filter(not_in(other@)),
            key_views(r@).no_duplicates(),
            key_views(r@).to_set() == self@.difference(other@),
    {
        let ghost all = self.order();
        let ghost keep = not_in(other@);
        let mut kept: Vec<ForwardKey> = Vec::new();
        let mut i: usize = 0;
        assert(all.take(0).filter(keep) =~= Seq::empty()) by {
            reveal(Seq::filter);
        }
        while i < self.keys.len()
            invariant
                i <= self.keys@.len(),
                all == key_views(self.keys@),
                keep == not_in(other@),
                key_views(kept@) == all.take(i as int).filter(keep),
            decreases self.keys@.len() - i,
        {
            proof {
                seqs::lemma_filter_take(all, keep, i as int);
            }
            if !other.contains(&self.keys[i]) {
                let ghost before = kept@;
                kept.push(self.keys[i].clone());
                assert(key_views(kept@) == key_views(before).push(all[i as int]));
            }
            i += 1;
        }
        proof {
            use_type_invariant(self);
            assert(all.take(all.len() as int) == all);
            seqs::lemma_filter_no_duplicates(all, keep);
            assert forall|k: KeyView|
                #![auto]
                all.filter(keep).to_set().contains(k) <==> self@.difference(other@).contains(k) by {
                seqs::lemma_filter_contains(all, keep, k);
            }
            assert(all.filter(keep).to_set() =~= self@.difference(other@));
        }
        kept
    }
}

/// The keys that `set` lacks.
pub open spec fn not_in(set: Set<KeyView>) -> spec_fn(KeyView) -> bool {
    |k: KeyView| !set.contains(k)
}

/// The difference between the forwards that settings ask for and those that exist.
///
/// `existing` holds the keys of all settings-sourced forwards, `managed` those of them for
/// which a child process is owned. The first result holds the keys to launch, the second those
/// whose child processes to tear down.
pub fn compute_forward_diff(
    desired: &KeySet,
    existing: &KeySet,
    managed: &KeySet,
) -> (r: (Vec<ForwardKey>, KeySet))
    ensures
        key_views(r.0@) == desired.order().filter(not_in(existing@)),
        key_views(r.0@).no_duplicates(),
        key_views(r.0@).to_set() == desired@.difference(existing@),
        r.1.order() == managed.order().filter(not_in(desired@)),
        r.1@ == managed@.difference(desired@),
{
    let to_add = desired.difference(existing);
    let to_remove = managed.difference(desired);
    let ghost removed = key_views(to_remove@);
    proof {
        seqs::lemma_distinct_fixed(removed);
    }
    (to_add, KeySet::from_keys(to_remove))
}

} // verus!
