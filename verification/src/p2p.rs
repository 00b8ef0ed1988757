//! Messages between named peers, and the decisions of where a message
//! goes. The connections themselves are not part of this library.

use vstd::prelude::*;

verus! {

/// A message from one named peer to another, or to a group.
#[derive(Debug)]
pub struct P2PMessageBody {
    pub dest: String,
    pub sender: String,
    pub content: Vec<u8>,
    pub metadata: Vec<u8>,
}

impl Clone for P2PMessageBody {
    fn clone(&self) -> (copy: Self)
        ensures
            copy.dest@ == self.dest@,
            copy.sender@ == self.sender@,
            copy.content@ == self.content@,
            copy.metadata@ == self.metadata@,
    {
        P2PMessageBody {
            dest: self.dest.clone(),
            sender: self.sender.clone(),
            content: self.content.clone(),
            metadata: self.metadata.clone(),
        }
    }
}

/// The name of this peer, the addresses of all peers, and the members of
/// each multicast group.
#[derive(Debug)]
pub struct P2PConfig {
    pub name: String,
    pub addr_map: Vec<(String, String)>,
    pub mcast_groups: Vec<(String, Vec<String>)>,
}

/// Whether `at` is the first place at which `names` holds `wanted`.
pub open spec fn first_at(names: Seq<Seq<char>>, wanted: Seq<char>, at: int) -> bool {
    &&& 0 <= at < names.len()
    &&& names[at] == wanted
    &&& forall|j: int| 0 <= j < at ==> names[j] != wanted
}

/// The names of a list of peers.
pub open spec fn name_views(peers: Seq<String>) -> Seq<Seq<char>> {
    peers.map_values(|p: String| p@)
}

/// The message by which a peer tells the other side of a new connection who
/// it is: from `name`, to nobody, and empty.
pub fn hello(name: &String) -> (msg: P2PMessageBody)
    ensures
        msg.sender@ == name@,
        msg.dest@ == Seq::<char>::empty(),
        msg.content@ == Seq::<u8>::empty(),
        msg.metadata@ == Seq::<u8>::empty(),
{
    P2PMessageBody {
        dest: String::new(),
        sender: name.clone(),
        content: Vec::new(),
        metadata: Vec::new(),
    }
}

/// The queue that a message to `dest` goes to: the first peer of that
/// name. `None` where there is none; the message is then dropped.
pub fn route_one(peers: &Vec<String>, dest: &String) -> (queue: Option<usize>)
    ensures
        match queue {
            Some(at) => first_at(name_views(peers@), dest@, at as int),
            None => !name_views(peers@).contains(dest@),
        },
{
    let mut i: usize = 0;
    while i < peers.len()
        invariant
            i <= peers.len(),
            forall|j: int| 0 <= j < i ==> name_views(peers@)[j] != dest@,
        decreases peers.len() - i,
    {
        if peers[i] == *dest {
            return Some(i);
        }
        i += 1;
    }
    None
}

impl P2PConfig {
    /// The address of the peer named `name`.
    pub fn addr_of(&self, name: &String) -> (addr: Option<&String>)
        ensures
            match addr {
                Some(found) => exists|at: int|
                    first_at(
                        self.addr_map@.map_values(|row: (String, String)| row.0@),
                        name@,
                        at,
                    ) && *found == self.addr_map@[at].1,
                None => !self.addr_map@.map_values(|row: (String, String)| row.0@).contains(
                    name@,
                ),
            },
    {
        let ghost names = self.addr_map@.map_values(|row: (String, String)| row.0@);
        let mut i: usize = 0;
        while i < self.addr_map.len()
            invariant
                i <= self.addr_map.len(),
                names == self.addr_map@.map_values(|row: (String, String)| row.0@),
                forall|j: int| 0 <= j < i ==> names[j] != name@,
            decreases self.addr_map.len() - i,
        {
            if self.addr_map[i].0 == *name {
                assert(first_at(names, name@, i as int));
                return Some(&self.addr_map[i].1);
            }
            i += 1;
        }
        None
    }

    /// The members of the multicast group named `group`.
    pub fn members_of(&self, group: &String) -> (members: Option<&Vec<String>>)
        ensures
            match members {
                Some(found) => exists|at: int|
                    first_at(
                        self.mcast_groups@.map_values(|row: (String, Vec<String>)| row.0@),
                        group@,
                        at,
                    ) && *found == self.mcast_groups@[at].1,
                None => !self.mcast_groups@.map_values(
                    |row: (String, Vec<String>)| row.0@,
                ).contains(group@),
            },
    {
        let ghost names = self.mcast_groups@.map_values(|row: (String, Vec<String>)| row.0@);
        let mut i: usize = 0;
        while i < self.mcast_groups.len()
            invariant
                i <= self.mcast_groups.len(),
                names == self.mcast_groups@.map_values(|row: (String, Vec<String>)| row.0@),
                forall|j: int| 0 <= j < i ==> names[j] != group@,
            decreases self.mcast_groups.len() - i,
        {
            if self.mcast_groups[i].0 == *group {
                assert(first_at(names, group@, i as int));
                return Some(&self.mcast_groups[i].1);
            }
            i += 1;
        }
        None
    }
}

/// The queues that a message to the members of a group goes to: for each
/// member in turn that is a peer, the queue of the first peer of that name.
pub open spec fn spec_route_multi(peers: Seq<Seq<char>>, members: Seq<Seq<char>>) -> Seq<int>
    decreases members.len(),
{
    if members.len() == 0 {
        Seq::empty()
    } else if peers.contains(members.last()) {
        spec_route_multi(peers, members.drop_last()).push(
            choose|at: int| first_at(peers, members.last(), at),
        )
    } else {
        spec_route_multi(peers, members.drop_last())
    }
}

/// The queues that a message to `members` goes to. Members that are no
/// peers are passed over.
pub fn route_multi(peers: &Vec<String>, members: &Vec<String>) -> (queues: Vec<usize>)
    ensures
        queues@.map_values(|q: usize| q as int) == spec_route_multi(
            name_views(peers@),
            name_views(members@),
        ),
{
    let ghost names = name_views(peers@);
    let ghost wanted = name_views(members@);
    let mut queues: Vec<usize> = Vec::new();
    let mut i: usize = 0;
    assert(wanted.take(0) =~= Seq::<Seq<char>>::empty());
    assert(queues@.map_values(|q: usize| q as int) =~= Seq::<int>::empty());
    while i < members.len()
        invariant
            i <= members.len(),
            names == name_views(peers@),
            wanted == name_views(members@),
            queues@.map_values(|q: usize| q as int) == spec_route_multi(
                names,
                wanted.take(i as int),
            ),
        decreases members.len() - i,
    {
        let ghost before = queues@.map_values(|q: usize| q as int);
        proof {
            assert(wanted.take(i as int + 1).drop_last() =~= wanted.take(i as int));
            assert(wanted.take(i as int + 1).last() == members@[i as int]@);
        }
        match route_one(peers, &members[i]) {
            Some(at) => {
                queues.push(at);
                proof {
                    let picked = choose|k: int| first_at(names, members@[i as int]@, k);
                    assert(first_at(names, members@[i as int]@, at as int));
                    assert(picked == at) by {
                        if picked < at {
                            assert(names[picked] != members@[i as int]@);
                        } else if picked > at {
                            assert(names[at as int] != members@[i as int]@);
                        }
                    }
                    assert(queues@.map_values(|q: usize| q as int) =~= before.push(at as int));
                }
            },
            None => {},
        }
        i += 1;
    }
    assert(wanted.take(members.len() as int) =~= wanted);
    queues
}

} // verus!
