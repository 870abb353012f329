//! What a peer keeps track of in a lobby: whether it is in one, whom it
//! still owes a handshake, and the numbering of the objects it creates.

use crate::vec3::Vector3;
use vstd::prelude::*;

verus! {

/// Names an object across all peers: a number given by its owner, and the
/// owner.
#[derive(Copy, Clone, PartialEq, Eq, Structural, Debug)]
pub struct NetworkIdentity {
    pub id: u32,
    pub owner_id: u64,
}

/// Marks an object whose position its owner sends to the other peers while
/// `synced` is set.
#[derive(Copy, Clone, PartialEq, Eq, Structural, Debug)]
pub struct NetworkedTransform {
    pub synced: bool,
}

/// Names what is to be created.
#[derive(Copy, Clone, PartialEq, Eq, Structural, Debug)]
pub struct FilePath(pub u32);

/// A message between peers.
#[derive(Debug)]
pub enum NetworkData {
    Handshake,
    /// Receiver, action and the action's data.
    SendObjectData(NetworkIdentity, i8, Vec<u8>),
    /// The new object, what it is made from and where it starts.
    Instantiate(NetworkIdentity, FilePath, Vector3),
    /// Receiver and its new position.
    PositionUpdate(NetworkIdentity, Vector3),
    /// The object to be destroyed.
    Destroy(NetworkIdentity),
}

#[derive(Copy, Clone, PartialEq, Eq, Structural, Debug)]
pub enum LobbyStatus {
    InLobby(u64),
    OutOfLobby,
}

pub struct NetworkClient {
    /// This peer.
    pub id: u64,
    pub lobby_status: LobbyStatus,
    /// The number of the next object this peer creates.
    pub instantiation_id: u32,
    /// The peers that have entered the lobby and not shaken hands yet.
    pub not_yet_handshaken: Vec<u64>,
}

/// The members of `peers` other than `id`, in their order.
pub open spec fn others(peers: Seq<u64>, id: u64) -> Seq<u64> {
    peers.filter(|p: u64| p != id)
}

/// Computes [`others`].
pub fn without(peers: &Vec<u64>, id: u64) -> (r: Vec<u64>)
    ensures
        r@ == others(peers@, id),
{
    let mut kept: Vec<u64> = Vec::new();
    let mut i: usize = 0;
    assert(peers@.take(0) =~= Seq::<u64>::empty());
    while i < peers.len()
        invariant
            i <= peers@.len(),
            kept@ == others(peers@.take(i as int), id),
        decreases peers@.len() - i,
    {
        proof {
            let front = peers@.take(i as int);
            assert(peers@.take(i + 1) =~= front.push(peers@[i as int]));
            lemma_filter_push(front, peers@[i as int], id);
        }
        if peers[i] != id {
            kept.push(peers[i]);
        }
        i = i + 1;
    }
    assert(peers@.take(peers@.len() as int) =~= peers@);
    kept
}

/// Filtering a sequence with one more member.
proof fn lemma_filter_push(s: Seq<u64>, x: u64, id: u64)
    ensures
        others(s.push(x), id) == (if x != id {
            others(s, id).push(x)
        } else {
            others(s, id)
        }),
{
    reveal(Seq::filter);
    assert(s.push(x).drop_last() =~= s);
}

impl NetworkClient {
    /// A peer outside any lobby that has created nothing yet.
    pub fn new(id: u64) -> (r: NetworkClient)
        ensures
            r.id == id,
            r.lobby_status == LobbyStatus::OutOfLobby,
            r.instantiation_id == 0,
            r.not_yet_handshaken@.len() == 0,
    {
        NetworkClient {
            id,
            lobby_status: LobbyStatus::OutOfLobby,
            instantiation_id: 0,
            not_yet_handshaken: Vec::new(),
        }
    }

    pub open spec fn in_lobby(&self) -> bool {
        self.lobby_status != LobbyStatus::OutOfLobby
    }

    /// Tells whether this peer may create a lobby: only outside of one.
    pub fn create_lobby(&self) -> (b: bool)
        ensures
            b == !self.in_lobby(),
    {
        !self.is_in_lobby()
    }

    /// Leaves the lobby and names it, so that the caller can tell the
    /// others; does nothing outside a lobby.
    pub fn leave_lobby(&mut self) -> (r: Option<u64>)
        ensures
            r == (match old(self).lobby_status {
                LobbyStatus::InLobby(l) => Some(l),
                LobbyStatus::OutOfLobby => None,
            }),
            final(self).lobby_status == LobbyStatus::OutOfLobby,
            final(self).id == old(self).id,
            final(self).instantiation_id == old(self).instantiation_id,
            final(self).not_yet_handshaken == old(self).not_yet_handshaken,
    {
        match self.lobby_status {
            LobbyStatus::InLobby(lobby) => {
                self.lobby_status = LobbyStatus::OutOfLobby;
                Some(lobby)
            },
            LobbyStatus::OutOfLobby => None,
        }
    }

    /// The peers a message to all goes to: the members of the lobby,
    /// without this peer where only the others are meant. Outside a lobby
    /// there is nobody to send to.
    pub fn send_message_all(&self, members: &Vec<u64>, only_others: bool) -> (r: Result<
        Vec<u64>,
        String,
    >)
        ensures
            r is Ok <==> self.in_lobby(),
            r is Ok ==> r->Ok_0@ == (if only_others {
                others(members@, self.id)
            } else {
                members@
            }),
            r is Err ==> r->Err_0@ == "Out of lobby"@,
    {
        match self.get_lobby_id() {
            Err(e) => Err(e),
            Ok(_) => {
                if only_others {
                    Ok(without(members, self.id))
                } else {
                    Ok(members.clone())
                }
            },
        }
    }

    /// Tells whether a message may be sent to a peer: only inside a lobby.
    pub fn send_message(&self) -> (r: Result<(), String>)
        ensures
            r is Ok <==> self.in_lobby(),
            r is Err ==> r->Err_0@ == "Not in a lobby"@,
    {
        if !self.is_in_lobby() {
            return Err("Not in a lobby".to_owned());
        }
        Ok(())
    }

    pub fn is_in_lobby(&self) -> (b: bool)
        ensures
            b == self.in_lobby(),
    {
        match self.lobby_status {
            LobbyStatus::InLobby(_) => true,
            LobbyStatus::OutOfLobby => false,
        }
    }

    /// Tells whether this peer owns the lobby, given its owner.
    pub fn is_lobby_owner(&self, owner: u64) -> (r: Result<bool, String>)
        ensures
            r is Ok <==> self.in_lobby(),
            r is Ok ==> r->Ok_0 == (owner == self.id),
            r is Err ==> r->Err_0@ == "Out of lobby"@,
    {
        match self.get_lobby_id() {
            Err(e) => Err(e),
            Ok(_) => Ok(owner == self.id),
        }
    }

    pub fn get_lobby_id(&self) -> (r: Result<u64, String>)
        ensures
            r is Ok <==> self.in_lobby(),
            r is Ok ==> self.lobby_status == LobbyStatus::InLobby(r->Ok_0),
            r is Err ==> r->Err_0@ == "Out of lobby"@,
    {
        match self.lobby_status {
            LobbyStatus::InLobby(lobby_id) => Ok(lobby_id),
            LobbyStatus::OutOfLobby => Err("Out of lobby".to_owned()),
        }
    }

    /// Numbers a new object and words the message that tells every member
    /// of the lobby to create it. The number is used up outside a lobby
    /// too.
    pub fn instantiate(&mut self, path: FilePath, pos: Vector3) -> (r: Result<NetworkData, String>)
        requires
            old(self).instantiation_id < u32::MAX,
        ensures
            final(self).instantiation_id == old(self).instantiation_id + 1,
            final(self).id == old(self).id,
            final(self).lobby_status == old(self).lobby_status,
            final(self).not_yet_handshaken == old(self).not_yet_handshaken,
            r is Ok <==> old(self).in_lobby(),
            r is Ok ==> r->Ok_0 == NetworkData::Instantiate(
                NetworkIdentity { id: old(self).instantiation_id, owner_id: old(self).id },
                path,
                pos,
            ),
            r is Err ==> r->Err_0@ == "Out of lobby"@,
    {
        let instantiation_id: u32 = self.get_new_instantiation_id();
        match self.get_lobby_id() {
            Err(e) => Err(e),
            Ok(_) => Ok(
                NetworkData::Instantiate(
                    NetworkIdentity { id: instantiation_id, owner_id: self.id },
                    path,
                    pos,
                ),
            ),
        }
    }

    pub fn get_new_instantiation_id(&mut self) -> (id: u32)
        requires
            old(self).instantiation_id < u32::MAX,
        ensures
            id == old(self).instantiation_id,
            final(self).instantiation_id == old(self).instantiation_id + 1,
            final(self).id == old(self).id,
            final(self).lobby_status == old(self).lobby_status,
            final(self).not_yet_handshaken == old(self).not_yet_handshaken,
    {
        let id: u32 = self.instantiation_id;
        self.instantiation_id = self.instantiation_id + 1;
        id
    }

    /// A peer has entered the lobby: it is owed a handshake.
    pub fn lobby_joined(&mut self, user: u64)
        ensures
            final(self).not_yet_handshaken@ == old(self).not_yet_handshaken@.push(user),
            final(self).id == old(self).id,
            final(self).lobby_status == old(self).lobby_status,
            final(self).instantiation_id == old(self).instantiation_id,
    {
        self.not_yet_handshaken.push(user);
    }

    /// A peer has left the lobby or lost its connection: this peer is
    /// outside the lobby.
    pub fn lobby_left(&mut self)
        ensures
            final(self).lobby_status == LobbyStatus::OutOfLobby,
            final(self).id == old(self).id,
            final(self).instantiation_id == old(self).instantiation_id,
            final(self).not_yet_handshaken == old(self).not_yet_handshaken,
    {
        self.lobby_status = LobbyStatus::OutOfLobby;
    }

    /// This peer has entered a lobby: it owes every other member a
    /// handshake, after those it owed one before.
    pub fn lobby_entered(&mut self, lobby_id: u64, members: &Vec<u64>)
        ensures
            final(self).lobby_status == LobbyStatus::InLobby(lobby_id),
            final(self).not_yet_handshaken@ == old(self).not_yet_handshaken@ + others(
                members@,
                old(self).id,
            ),
            final(self).id == old(self).id,
            final(self).instantiation_id == old(self).instantiation_id,
    {
        self.lobby_status = LobbyStatus::InLobby(lobby_id);
        let mut new: Vec<u64> = without(members, self.id);
        self.not_yet_handshaken.append(&mut new);
    }

    /// A handshake has come from `sender`: it is owed none any more.
    pub fn handshake_received(&mut self, sender: u64)
        ensures
            final(self).not_yet_handshaken@ == others(old(self).not_yet_handshaken@, sender),
            final(self).id == old(self).id,
            final(self).lobby_status == old(self).lobby_status,
            final(self).instantiation_id == old(self).instantiation_id,
    {
        self.not_yet_handshaken = without(&self.not_yet_handshaken, sender);
    }

    /// Tells whether this peer sends the position of an object to the
    /// others: it does for the synced objects that it owns.
    pub fn sends_position(&self, identity: &NetworkIdentity, transform: &NetworkedTransform) -> (b:
        bool)
        ensures
            b == (transform.synced && self.id == identity.owner_id),
    {
        transform.synced && self.id == identity.owner_id
    }
}

} // verus!
