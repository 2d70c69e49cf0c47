use malai_client::resolver::{get_peer_id52_from_host, HostError};

const ID52: &str = "abcdefghijklmnopqrstuvwxyzabcdefghijklmnopqrstuvwxyz";

#[test]
fn peer_id_from_52_char_label() {
    let host = format!("{ID52}.localhost");
    assert_eq!(get_peer_id52_from_host(Some(&host), None), Ok(ID52.to_string()));
}

#[test]
fn fifty_char_label_without_target_is_rejected() {
    let host = "abcdefghijklmnopqrstuvwxyzabcdefghijklmnopqrstuvwx.localhost";
    assert_eq!(get_peer_id52_from_host(Some(host), None), Err(HostError::InvalidPeerId));
}

#[test]
fn loopback_ip_goes_to_fixed_target() {
    assert_eq!(
        get_peer_id52_from_host(Some("127.0.0.1"), Some("P".to_string())),
        Ok("P".to_string())
    );
}

#[test]
fn loopback_ip_without_target_is_rejected() {
    assert_eq!(get_peer_id52_from_host(Some("127.0.0.1"), None), Err(HostError::InvalidPeerId));
}

#[test]
fn missing_host_is_rejected() {
    assert_eq!(get_peer_id52_from_host(None, None), Err(HostError::MissingHost));
    assert_eq!(get_peer_id52_from_host(None, Some(ID52.to_string())), Err(HostError::MissingHost));
}

#[test]
fn host_without_dot_is_rejected() {
    assert_eq!(get_peer_id52_from_host(Some("localhost"), None), Err(HostError::MissingHost));
    assert_eq!(get_peer_id52_from_host(Some(""), Some("P".to_string())), Err(HostError::MissingHost));
}

#[test]
fn other_label_than_fixed_target_is_not_permitted() {
    let host = format!("{ID52}.localhost");
    let other = "zbcdefghijklmnopqrstuvwxyzabcdefghijklmnopqrstuvwxyz".to_string();
    assert_eq!(get_peer_id52_from_host(Some(&host), Some(other)), Err(HostError::PeerNotPermitted));
}

#[test]
fn label_equal_to_fixed_target_is_accepted_whatever_its_length() {
    assert_eq!(
        get_peer_id52_from_host(Some("short.localhost:8080"), Some("short".to_string())),
        Ok("short".to_string())
    );
}

#[test]
fn label_is_cut_at_first_dot() {
    let host = format!("{ID52}.a.b.c");
    assert_eq!(get_peer_id52_from_host(Some(&host), None), Ok(ID52.to_string()));
    assert_eq!(get_peer_id52_from_host(Some(".x"), None), Err(HostError::InvalidPeerId));
}

#[test]
fn same_inputs_give_same_result() {
    let host = format!("{ID52}.localhost");
    for target in [None, Some(ID52.to_string()), Some("P".to_string())] {
        let a = get_peer_id52_from_host(Some(&host), target.clone());
        let b = get_peer_id52_from_host(Some(&host), target);
        assert_eq!(a, b);
    }
}

#[test]
fn peer_id_length_counts_characters() {
    let label = "é".repeat(52);
    let host = format!("{label}.localhost");
    assert_eq!(get_peer_id52_from_host(Some(&host), None), Ok(label));
    let half = "é".repeat(26);
    let host = format!("{half}.localhost");
    assert_eq!(get_peer_id52_from_host(Some(&host), None), Err(HostError::InvalidPeerId));
    let long = "a".repeat(53);
    let host = format!("{long}.localhost");
    assert_eq!(get_peer_id52_from_host(Some(&host), None), Err(HostError::InvalidPeerId));
}
