use leg_creature::network::{
    without, FilePath, LobbyStatus, NetworkClient, NetworkData, NetworkIdentity, NetworkedTransform,
};
use leg_creature::vec3::Vector3;

#[test]
fn new_peer_is_outside_any_lobby() {
    let c = NetworkClient::new(7);
    assert_eq!(c.id, 7);
    assert_eq!(c.lobby_status, LobbyStatus::OutOfLobby);
    assert!(!c.is_in_lobby());
    assert!(c.create_lobby());
    assert_eq!(c.get_lobby_id(), Err("Out of lobby".to_string()));
    assert_eq!(c.is_lobby_owner(7), Err("Out of lobby".to_string()));
    assert_eq!(c.send_message(), Err("Not in a lobby".to_string()));
    assert_eq!(c.send_message_all(&vec![1, 2], false), Err("Out of lobby".to_string()));
}

#[test]
fn peer_enters_and_leaves_a_lobby() {
    let mut c = NetworkClient::new(7);
    c.lobby_joined(3);
    c.lobby_entered(99, &vec![7, 4, 7, 5]);
    assert_eq!(c.lobby_status, LobbyStatus::InLobby(99));
    assert_eq!(c.not_yet_handshaken, vec![3, 4, 5]);
    assert!(c.is_in_lobby());
    assert!(!c.create_lobby());
    assert_eq!(c.get_lobby_id(), Ok(99));
    assert_eq!(c.is_lobby_owner(7), Ok(true));
    assert_eq!(c.is_lobby_owner(4), Ok(false));
    assert_eq!(c.send_message(), Ok(()));
    c.lobby_joined(4);
    c.handshake_received(4);
    assert_eq!(c.not_yet_handshaken, vec![3, 5]);
    c.handshake_received(8);
    assert_eq!(c.not_yet_handshaken, vec![3, 5]);
    assert_eq!(c.leave_lobby(), Some(99));
    assert_eq!(c.lobby_status, LobbyStatus::OutOfLobby);
    assert_eq!(c.leave_lobby(), None);
    c.lobby_entered(5, &Vec::new());
    c.lobby_left();
    assert!(!c.is_in_lobby());
}

#[test]
fn message_to_all_goes_to_the_members() {
    let mut c = NetworkClient::new(7);
    c.lobby_entered(99, &Vec::new());
    assert_eq!(c.send_message_all(&vec![7, 4, 5, 7], false), Ok(vec![7, 4, 5, 7]));
    assert_eq!(c.send_message_all(&vec![7, 4, 5, 7], true), Ok(vec![4, 5]));
    assert_eq!(without(&vec![1, 2, 1, 3], 1), vec![2, 3]);
    assert_eq!(without(&vec![1, 1], 1), Vec::<u64>::new());
}

#[test]
fn created_objects_are_numbered_in_turn() {
    let mut c = NetworkClient::new(7);
    assert_eq!(c.get_new_instantiation_id(), 0);
    assert_eq!(c.get_new_instantiation_id(), 1);
    match c.instantiate(FilePath(0), Vector3::new(1, 2, 1)) {
        Err(e) => assert_eq!(e, "Out of lobby"),
        Ok(_) => panic!("a message outside a lobby"),
    }
    assert_eq!(c.instantiation_id, 3);
    c.lobby_entered(99, &Vec::new());
    match c.instantiate(FilePath(4), Vector3::new(1000, 2000, 1000)) {
        Ok(NetworkData::Instantiate(identity, path, pos)) => {
            assert_eq!(identity, NetworkIdentity { id: 3, owner_id: 7 });
            assert_eq!(path, FilePath(4));
            assert_eq!(pos, Vector3::new(1000, 2000, 1000));
        },
        _ => panic!("no message"),
    }
    assert_eq!(c.instantiation_id, 4);
}

#[test]
fn owner_sends_the_position_of_synced_objects() {
    let c = NetworkClient::new(7);
    let mine = NetworkIdentity { id: 0, owner_id: 7 };
    let theirs = NetworkIdentity { id: 0, owner_id: 8 };
    assert!(c.sends_position(&mine, &NetworkedTransform { synced: true }));
    assert!(!c.sends_position(&mine, &NetworkedTransform { synced: false }));
    assert!(!c.sends_position(&theirs, &NetworkedTransform { synced: true }));
}
