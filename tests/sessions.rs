use malai_client::sessions::{ClientAddr, Route, SessionTable, SESSION_QUEUE_CAPACITY};

fn client(port: u16) -> ClientAddr {
    ClientAddr { ip: 0x7f00_0001, port, v6: false }
}

#[test]
fn first_datagram_opens_a_session() {
    let mut t: SessionTable<&str> = SessionTable::new();
    assert_eq!(t.route(client(1)), Route::Open);
    assert_eq!(t.open(client(1), "a"), Some(0));
    assert_eq!(t.route(client(1)), Route::Forward(0));
    assert!(t.is_live(client(1)));
    assert_eq!(t.handle(client(1)), Some(&"a"));
}

#[test]
fn burst_before_stream_opens_goes_to_one_session() {
    let mut t: SessionTable<Vec<Vec<u8>>> = SessionTable::new();
    let a = client(5000);
    let mut queue_of_first: Vec<Vec<u8>> = Vec::new();
    let mut opened = Vec::new();
    for d in [vec![1u8], vec![2u8]] {
        match t.route(a) {
            Route::Open => {
                opened.push(t.open(a, Vec::new()).unwrap());
                queue_of_first.push(d);
            }
            Route::Forward(id) => {
                assert_eq!(Some(id), opened.first().copied());
                queue_of_first.push(d);
            }
        }
    }
    assert_eq!(opened, vec![0]);
    assert_eq!(queue_of_first, vec![vec![1u8], vec![2u8]]);
    assert_eq!(t.len(), 1);
}

#[test]
fn clients_get_their_own_sessions() {
    let mut t: SessionTable<u8> = SessionTable::new();
    assert_eq!(t.open(client(1), 1), Some(0));
    assert_eq!(t.open(client(2), 2), Some(1));
    let v6 = ClientAddr { ip: 0x7f00_0001, port: 1, v6: true };
    assert_eq!(t.route(v6), Route::Open);
    assert_eq!(t.route(client(2)), Route::Forward(1));
    assert_eq!(t.len(), 2);
}

#[test]
fn stale_session_is_replaced_not_duplicated() {
    let mut t: SessionTable<u8> = SessionTable::new();
    assert_eq!(t.open(client(1), 1), Some(0));
    assert_eq!(t.open(client(1), 2), Some(1));
    assert_eq!(t.len(), 1);
    assert_eq!(t.route(client(1)), Route::Forward(1));
    assert_eq!(t.handle(client(1)), Some(&2));
}

#[test]
fn closing_removes_only_its_own_session() {
    let mut t: SessionTable<u8> = SessionTable::new();
    assert_eq!(t.open(client(1), 1), Some(0));
    assert_eq!(t.open(client(1), 2), Some(1));
    t.close(client(1), 0);
    assert_eq!(t.route(client(1)), Route::Forward(1));
    t.close(client(1), 1);
    assert_eq!(t.route(client(1)), Route::Open);
    assert_eq!(t.len(), 0);
    t.close(client(9), 3);
    assert_eq!(t.len(), 0);
}

#[test]
fn at_most_one_session_per_client_under_load() {
    let mut t: SessionTable<u32> = SessionTable::new();
    for i in 0..1000u32 {
        let a = client((i % 7) as u16);
        match t.route(a) {
            Route::Open => {
                t.open(a, i).unwrap();
            }
            Route::Forward(id) => {
                if i % 3 == 0 {
                    t.close(a, id);
                } else if i % 5 == 0 {
                    t.open(a, i).unwrap();
                }
            }
        }
        assert!(t.len() <= 7);
    }
}

#[test]
fn queue_capacity() {
    assert_eq!(SESSION_QUEUE_CAPACITY, 256);
}
