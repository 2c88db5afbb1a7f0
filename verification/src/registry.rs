//! The client registry: the mapping from address to client that the
//! dispatcher alone owns and mutates. Held as a vector with pairwise
//! distinct addresses; its view is the sequence of clients in admission
//! order.

use vstd::prelude::*;
use crate::types::Client;
use crate::types::Address;

verus! {

/// The clients of `s` whose address is not `a`, in order.
pub open spec fn without_addr(s: Seq<Client>, a: Address) -> Seq<Client>
    decreases s.len(),
{
    if s.len() == 0 {
        Seq::empty()
    } else if s.last().address == a {
        without_addr(s.drop_last(), a)
    } else {
        without_addr(s.drop_last(), a).push(s.last())
    }
}

/// Whether some client in `s` has address `a`.
pub open spec fn addr_in(s: Seq<Client>, a: Address) -> bool {
    exists|i: int| 0 <= i < s.len() && s[i].address == a
}

/// Whether no two clients of `s` share an address.
pub open spec fn distinct_addrs(s: Seq<Client>) -> bool {
    forall|i: int, j: int| 0 <= i < j < s.len() ==> s[i].address != s[j].address
}

/// What `without_addr` keeps: exactly the clients whose address differs from
/// `a`, no others, with distinctness preserved; and when no client has
/// address `a`, the sequence is unchanged.
pub proof fn lemma_without_addr(s: Seq<Client>, a: Address)
    ensures
        forall|c: Client| #[trigger] without_addr(s, a).contains(c) <==> s.contains(c)
            && c.address != a,
        forall|b: Address| #[trigger] addr_in(without_addr(s, a), b) <==> addr_in(s, b) && b != a,
        distinct_addrs(s) ==> distinct_addrs(without_addr(s, a)),
        without_addr(s, a).len() <= s.len(),
        !addr_in(s, a) ==> without_addr(s, a) == s,
    decreases s.len(),
{
    if s.len() == 0 {
        assert(without_addr(s, a) =~= s);
    } else {
        let t = s.drop_last();
        let x = s.last();
        lemma_without_addr(t, a);
        assert(t.push(x) =~= s);
        lemma_contains_push(t, x);
        if x.address == a {
            assert(forall|c: Client| #[trigger] without_addr(s, a).contains(c) <==> s.contains(c)
                && c.address != a);
            assert forall|b: Address| #[trigger] addr_in(without_addr(s, a), b) <==> addr_in(s, b)
                && b != a by {
                lemma_addr_in_push(t, x, b);
            }
            assert(addr_in(s, a)) by {
                lemma_addr_in_push(t, x, a);
            }
        } else {
            let w = without_addr(t, a);
            lemma_contains_push(w, x);
            assert(forall|c: Client| #[trigger] without_addr(s, a).contains(c) <==> s.contains(c)
                && c.address != a);
            assert forall|b: Address| #[trigger] addr_in(without_addr(s, a), b) <==> addr_in(s, b)
                && b != a by {
                lemma_addr_in_push(t, x, b);
                lemma_addr_in_push(w, x, b);
            }
            if distinct_addrs(s) {
                assert(distinct_addrs(t));
                assert forall|i: int, j: int| 0 <= i < j < w.push(x).len() implies w.push(x)[i].address
                    != w.push(x)[j].address by {
                    if j < w.len() {
                    } else {
                        assert(w.contains(w[i]));
                        assert(t.contains(w[i]));
                        let k = choose|k: int| 0 <= k < t.len() && t[k] == w[i];
                        assert(s[k] == w[i]);
                        assert(s[s.len() - 1] == x);
                    }
                }
            }
            if !addr_in(s, a) {
                assert(!addr_in(t, a)) by {
                    lemma_addr_in_push(t, x, a);
                }
                assert(without_addr(s, a) =~= s);
            }
        }
    }
}

/// Membership in a pushed sequence: the pushed element, or an element of the
/// original.
pub proof fn lemma_contains_push(s: Seq<Client>, x: Client)
    ensures
        forall|c: Client| #[trigger] s.push(x).contains(c) <==> s.contains(c) || c == x,
{
    assert forall|c: Client| #[trigger] s.push(x).contains(c) implies s.contains(c) || c == x by {
        let i = choose|i: int| 0 <= i < s.push(x).len() && s.push(x)[i] == c;
        if i < s.len() {
            assert(s[i] == c);
        }
    }
    assert forall|c: Client| s.contains(c) || c == x implies #[trigger] s.push(x).contains(c) by {
        if s.contains(c) {
            let i = choose|i: int| 0 <= i < s.len() && s[i] == c;
            assert(s.push(x)[i] == c);
        } else {
            assert(s.push(x)[s.len() as int] == x);
        }
    }
}

/// An address occurs in a pushed sequence exactly when it is the pushed
/// client's address or occurs in the original.
pub proof fn lemma_addr_in_push(s: Seq<Client>, x: Client, b: Address)
    ensures
        addr_in(s.push(x), b) <==> addr_in(s, b) || x.address == b,
{
    if addr_in(s.push(x), b) {
        let i = choose|i: int| 0 <= i < s.push(x).len() && s.push(x)[i].address == b;
        if i < s.len() {
            assert(s[i].address == b);
        }
    }
    if addr_in(s, b) {
        let i = choose|i: int| 0 <= i < s.len() && s[i].address == b;
        assert(s.push(x)[i].address == b);
    }
    if x.address == b {
        assert(s.push(x)[s.len() as int].address == b);
    }
}

/// The registry of connected clients, keyed by address.
pub struct Registry {
    clients: Vec<Client>,
}

impl View for Registry {
    type V = Seq<Client>;

    closed spec fn view(&self) -> Seq<Client> {
        self.clients@
    }
}

impl Registry {
    /// No two registered clients share an address.
    pub open spec fn wf(&self) -> bool {
        distinct_addrs(self@)
    }

    /// An empty registry.
    pub fn new() -> (r: Registry)
        ensures
            r@ == Seq::<Client>::empty(),
            r.wf(),
    {
        Registry { clients: Vec::new() }
    }

    /// How many clients are registered.
    pub fn len(&self) -> (n: usize)
        ensures
            n == self@.len(),
    {
        self.clients.len()
    }

    /// Whether a client with address `a` is registered.
    pub fn contains_address(&self, a: Address) -> (r: bool)
        ensures
            r == addr_in(self@, a),
    {
        let n = self.clients.len();
        let mut i: usize = 0;
        while i < n
            invariant
                n == self@.len(),
                i <= n,
                forall|j: int| 0 <= j < i ==> self@[j].address != a,
            decreases n - i,
        {
            if self.clients[i].address == a {
                return true;
            }
            i += 1;
        }
        false
    }

    /// Removes the client with address `a`, if any; removing an absent
    /// address leaves the registry unchanged.
    pub fn remove(&mut self, a: Address) -> (had: bool)
        requires
            old(self).wf(),
        ensures
            final(self).wf(),
            final(self)@ == without_addr(old(self)@, a),
            had == addr_in(old(self)@, a),
            !addr_in(old(self)@, a) ==> final(self)@ == old(self)@,
    {
        let ghost s = self@;
        let n = self.clients.len();
        let mut kept: Vec<Client> = Vec::new();
        let mut found = false;
        let mut i: usize = 0;
        while i < n
            invariant
                n == s.len(),
                self@ == s,
                i <= n,
                kept@ == without_addr(s.take(i as int), a),
                found == addr_in(s.take(i as int), a),
            decreases n - i,
        {
            let c = self.clients[i];
            proof {
                assert(s.take(i + 1).drop_last() =~= s.take(i as int));
                assert(s.take(i + 1).last() == s[i as int]);
                lemma_addr_in_push(s.take(i as int), s[i as int], a);
                assert(s.take(i as int).push(s[i as int]) =~= s.take(i + 1));
            }
            if c.address == a {
                found = true;
            } else {
                kept.push(c);
            }
            i += 1;
        }
        proof {
            assert(s.take(n as int) =~= s);
            lemma_without_addr(s, a);
        }
        self.clients = kept;
        found
    }

    /// Registers `client`, overwriting any stale entry for the same address.
    pub fn insert(&mut self, client: Client)
        requires
            old(self).wf(),
        ensures
            final(self).wf(),
            final(self)@ == without_addr(old(self)@, client.address).push(client),
            addr_in(final(self)@, client.address),
    {
        let ghost s = self@;
        self.remove(client.address);
        self.clients.push(client);
        proof {
            lemma_without_addr(s, client.address);
            let w = without_addr(s, client.address);
            assert forall|i: int, j: int| 0 <= i < j < self@.len() implies self@[i].address
                != self@[j].address by {
                if j < w.len() {
                } else {
                    assert(w.contains(w[i]));
                }
            }
            lemma_addr_in_push(w, client, client.address);
        }
    }

    /// The registered client with address `a`, if any.
    pub fn lookup(&self, a: Address) -> (r: Option<Client>)
        ensures
            match r {
                Some(c) => self@.contains(c) && c.address == a,
                None => !addr_in(self@, a),
            },
    {
        let n = self.clients.len();
        let mut i: usize = 0;
        while i < n
            invariant
                n == self@.len(),
                i <= n,
                forall|j: int| 0 <= j < i ==> self@[j].address != a,
            decreases n - i,
        {
            let c = self.clients[i];
            if c.address == a {
                assert(self@[i as int] == c);
                return Some(c);
            }
            i += 1;
        }
        None
    }

    /// The snapshot of recipients for a broadcast from `sender`: every
    /// registered client except the sender, in admission order.
    pub fn recipients(&self, sender: Address) -> (r: Vec<Client>)
        ensures
            r@ == without_addr(self@, sender),
    {
        let s = Ghost(self@);
        let n = self.clients.len();
        let mut out: Vec<Client> = Vec::new();
        let mut i: usize = 0;
        while i < n
            invariant
                n == s@.len(),
                self@ == s@,
                i <= n,
                out@ == without_addr(s@.take(i as int), sender),
            decreases n - i,
        {
            let c = self.clients[i];
            proof {
                assert(s@.take(i + 1).drop_last() =~= s@.take(i as int));
                assert(s@.take(i + 1).last() == s@[i as int]);
            }
            if c.address != sender {
                out.push(c);
            }
            i += 1;
        }
        proof {
            assert(s@.take(n as int) =~= s@);
        }
        out
    }
}

} // verus!
