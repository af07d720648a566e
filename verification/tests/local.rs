use secure_sum::client::Client;
use secure_sum::error::ProtocolError;
use secure_sum::local::Server;

fn clients_with(values: &[u32]) -> Vec<Client> {
    values
        .iter()
        .enumerate()
        .map(|(i, &v)| Client::new(format!("Client #{}", i + 1), v))
        .collect()
}

fn server_with(values: &[u32]) -> Server {
    Server { aggregate_value: 0, clients: clients_with(values) }
}

fn reference_sum(values: &[u32]) -> u32 {
    (values.iter().map(|&v| v as u64).sum::<u64>() % (1u64 << 32)) as u32
}

#[test]
fn aggregate_sums_the_accumulators() {
    let mut server = server_with(&[5, 7, 9]);
    assert_eq!(server.aggregate(), 21);
    assert_eq!(server.aggregate_value, 21);
    assert_eq!(server.clients.len(), 3);
    assert_eq!(server.clients[0].masked_value, 5);
    assert_eq!(server.clients[1].masked_value, 7);
    assert_eq!(server.clients[2].masked_value, 9);
}

#[test]
fn aggregate_of_no_clients_is_zero() {
    let mut server = Server { aggregate_value: 77, clients: Vec::new() };
    assert_eq!(server.aggregate(), 0);
    assert_eq!(server.aggregate_value, 0);
}

#[test]
fn aggregate_wraps_at_the_modulus() {
    let mut server = server_with(&[0xffff_ffff, 2, 0x8000_0000, 0x8000_0000]);
    assert_eq!(server.aggregate(), 1);
}

#[test]
fn aggregate_recomputes_from_scratch() {
    let mut server = server_with(&[5, 7, 9]);
    assert_eq!(server.aggregate(), 21);
    assert_eq!(server.aggregate(), 21);
    server.clients[0].add_to_value(4);
    assert_eq!(server.aggregate(), 25);
}

#[test]
fn full_round_of_three_clients_aggregates_to_twenty_one() {
    for _ in 0..100 {
        let mut server = server_with(&[5, 7, 9]);
        server.initialize();
        assert_eq!(server.aggregate(), 21);
    }
}

#[test]
fn round_keeps_private_values_names_and_order() {
    let mut server = server_with(&[5, 7, 9, 11]);
    server.initialize();
    assert_eq!(server.clients.len(), 4);
    for (i, c) in server.clients.iter().enumerate() {
        assert_eq!(c.name, format!("Client #{}", i + 1));
    }
    let values: Vec<u32> = server.clients.iter().map(|c| c.value).collect();
    assert_eq!(values, vec![5, 7, 9, 11]);
    assert_eq!(server.aggregate_value, 0);
}

#[test]
fn round_masks_the_accumulators() {
    let mut changed = false;
    for _ in 0..20 {
        let mut server = server_with(&[5, 7, 9]);
        server.initialize();
        if server.clients.iter().any(|c| c.masked_value != c.value) {
            changed = true;
        }
    }
    assert!(changed);
}

#[test]
fn round_conserves_the_sum_for_arbitrary_values() {
    let rosters: [&[u32]; 6] = [
        &[],
        &[42],
        &[0, 0],
        &[0xffff_ffff, 0xffff_ffff, 0xffff_ffff],
        &[1, 0x8000_0000, 0x7fff_ffff, 0xdead_beef, 3],
        &[5, 6, 7, 8, 9, 10, 11, 5, 6, 7, 8, 9, 10, 11],
    ];
    for values in rosters.iter() {
        for _ in 0..20 {
            let mut server = server_with(values);
            server.initialize();
            assert_eq!(server.aggregate(), reference_sum(values));
        }
    }
}

#[test]
fn repeated_rounds_still_conserve_the_sum() {
    let mut server = server_with(&[5, 7, 9]);
    for _ in 0..10 {
        server.initialize();
        assert_eq!(server.aggregate(), 21);
    }
}

#[test]
fn round_of_a_single_client_leaves_it_unmasked() {
    let mut server = server_with(&[42]);
    server.initialize();
    assert_eq!(server.clients[0].masked_value, 42);
}

#[test]
fn round_of_random_clients_matches_the_plain_sum() {
    let clients = Client::initialize_multiple(200);
    let plain: u32 = clients.iter().fold(0u32, |sum, c| sum.wrapping_add(c.value));
    let mut server = Server { aggregate_value: 0, clients };
    server.initialize();
    assert_eq!(server.aggregate(), plain);
}

#[test]
fn round_without_an_unreachable_client_leaves_that_client_untouched() {
    for _ in 0..50 {
        let a = Client::new("A".to_string(), 5);
        let b = Client::new("B".to_string(), 7);
        let c = Client::new("C".to_string(), 9);
        let mut server = Server { aggregate_value: 0, clients: vec![a, b] };
        server.initialize();
        assert_eq!(server.aggregate(), 12);
        assert_eq!(c.masked_value, 9);
        assert_eq!(c.masked_value, c.value);
        assert_eq!(c.share_value(), 9);
    }
}

#[test]
fn round_with_chosen_masks_gives_each_client_what_it_received_less_what_it_sent() {
    let values = [5u32, 7, 9];
    let rows: [[u32; 2]; 3] = [[100, 0xffff_ffff], [3, 0x8000_0000], [0, 17]];
    let mut clients = clients_with(&values);
    for i in 0..3 {
        let mut sender = clients.remove(i);
        for (k, peer) in clients.iter_mut().enumerate() {
            sender.exchange(peer, rows[i][k]);
        }
        clients.insert(i, sender);
    }
    let modulus = 1i128 << 32;
    for j in 0..3 {
        let sent: i128 = rows[j].iter().map(|&m| m as i128).sum();
        let mut received: i128 = 0;
        for i in 0..3 {
            if i != j {
                let slot = if j < i { j } else { j - 1 };
                received += rows[i][slot] as i128;
            }
        }
        let expected = (values[j] as i128 - sent + received).rem_euclid(modulus) as u32;
        assert_eq!(clients[j].masked_value, expected, "client {}", j);
    }
    assert_eq!(clients[0].masked_value, 5u32.wrapping_sub(100).wrapping_sub(0xffff_ffff).wrapping_add(3));
    let mut server = Server { aggregate_value: 0, clients };
    assert_eq!(server.aggregate(), 21);
}

#[test]
fn plain_sum_adds_the_private_values() {
    let mut server = server_with(&[5, 7, 9]);
    assert_eq!(server.plain_sum(), 21);
    server.initialize();
    assert_eq!(server.plain_sum(), 21);
    assert_eq!(server_with(&[0xffff_ffff, 3]).plain_sum(), 2);
    assert_eq!(server_with(&[]).plain_sum(), 0);
}

#[test]
fn masked_sum_adds_the_accumulators_and_stores_nothing() {
    let mut server = server_with(&[5, 7, 9]);
    server.clients[1].add_to_value(0xffff_ffff);
    assert_eq!(server.masked_sum(), 20);
    assert_eq!(server.aggregate_value, 0);
    assert_eq!(server.aggregate(), 20);
    assert_eq!(server.aggregate_value, 20);
}

#[test]
fn conservation_holds_before_and_after_a_round() {
    let mut server = server_with(&[5, 7, 9, 0xffff_ffff]);
    assert!(server.is_conserved());
    server.initialize();
    assert!(server.is_conserved());
    server.initialize();
    assert!(server.is_conserved());
}

#[test]
fn conservation_is_violated_by_a_mask_that_nobody_took_off() {
    let mut server = server_with(&[5, 7, 9]);
    server.clients[0].add_to_value(1);
    assert!(!server.is_conserved());
    server.initialize();
    assert!(!server.is_conserved());
    server.clients[2].subtract_from_value(1);
    assert!(server.is_conserved());
}

#[test]
fn initialize_with_masks_runs_the_round_with_the_given_table() {
    let mut server = server_with(&[5, 7, 9]);
    let rows = vec![vec![100, 0xffff_ffff], vec![3, 0x8000_0000], vec![0, 17]];
    assert!(server.fits(&rows));
    assert_eq!(server.initialize_with_masks(&rows), Ok(()));
    let masked: Vec<u32> = server.clients.iter().map(|c| c.masked_value).collect();
    let a = 5u32.wrapping_sub(100).wrapping_sub(0xffff_ffff).wrapping_add(3).wrapping_add(0);
    let b = 7u32.wrapping_add(100).wrapping_sub(3).wrapping_sub(0x8000_0000).wrapping_add(17);
    let c = 9u32.wrapping_add(0xffff_ffff).wrapping_add(0x8000_0000).wrapping_sub(0).wrapping_sub(17);
    assert_eq!(masked, vec![a, b, c]);
    assert_eq!(masked, vec![0xffff_ffa5, 0x8000_0079, 0x7fff_fff7]);
    assert_eq!(server.aggregate(), 21);
    assert!(server.is_conserved());
    let values: Vec<u32> = server.clients.iter().map(|c| c.value).collect();
    assert_eq!(values, vec![5, 7, 9]);
}

#[test]
fn initialize_with_masks_of_zero_changes_no_accumulator() {
    let mut server = server_with(&[5, 7, 9]);
    let rows = vec![vec![0, 0], vec![0, 0], vec![0, 0]];
    assert_eq!(server.initialize_with_masks(&rows), Ok(()));
    let masked: Vec<u32> = server.clients.iter().map(|c| c.masked_value).collect();
    assert_eq!(masked, vec![5, 7, 9]);
}

#[test]
fn initialize_with_masks_rejects_a_table_that_does_not_fit() {
    let tables: [Vec<Vec<u32>>; 5] = [
        vec![],
        vec![vec![1, 2], vec![3, 4]],
        vec![vec![1, 2], vec![3, 4], vec![5]],
        vec![vec![1, 2, 3], vec![3, 4], vec![5, 6]],
        vec![vec![1, 2], vec![3, 4], vec![5, 6], vec![7, 8]],
    ];
    for rows in tables.iter() {
        let mut server = server_with(&[5, 7, 9]);
        assert!(!server.fits(rows));
        assert_eq!(server.initialize_with_masks(rows), Err(ProtocolError::MalformedRequest));
        let masked: Vec<u32> = server.clients.iter().map(|c| c.masked_value).collect();
        assert_eq!(masked, vec![5, 7, 9]);
    }
}

#[test]
fn table_for_no_clients_and_for_one_client_has_no_masks() {
    let mut none = server_with(&[]);
    assert!(none.fits(&vec![]));
    assert!(!none.fits(&vec![vec![]]));
    assert_eq!(none.initialize_with_masks(&vec![]), Ok(()));
    let mut one = server_with(&[42]);
    assert!(one.fits(&vec![vec![]]));
    assert!(!one.fits(&vec![vec![1]]));
    assert_eq!(one.initialize_with_masks(&vec![vec![]]), Ok(()));
    assert_eq!(one.clients[0].masked_value, 42);
}
