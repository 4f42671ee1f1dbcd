use ramseynet::leaderboard::{admission_step, rank_after, score_bytes_lt, AdmissionStep};

#[test]
fn byte_order() {
    assert!(score_bytes_lt(&[1, 2], &[1, 3]));
    assert!(score_bytes_lt(&[1, 2], &[1, 2, 0]));
    assert!(!score_bytes_lt(&[1, 2], &[1, 2]));
    assert!(!score_bytes_lt(&[2], &[1, 9, 9]));
    assert!(score_bytes_lt(&[], &[0]));
}

#[test]
fn admission() {
    assert_eq!(admission_step(true, 0, 10, None, &[1]), AdmissionStep::Reject);
    assert_eq!(admission_step(false, 3, 10, None, &[9]), AdmissionStep::Admit { evict_worst: false });
    assert_eq!(
        admission_step(false, 10, 10, Some(&[5]), &[4]),
        AdmissionStep::Admit { evict_worst: true }
    );
    assert_eq!(admission_step(false, 10, 10, Some(&[5]), &[5]), AdmissionStep::Reject);
    assert_eq!(admission_step(false, 12, 10, None, &[5]), AdmissionStep::Admit { evict_worst: false });
    assert_eq!(rank_after(0), 1);
    assert_eq!(rank_after(41), 42);
}

#[test]
fn board_stays_within_capacity() {
    // a board of capacity 3 fed five graphs, best (lowest) scores win
    let capacity = 3;
    let mut board: Vec<Vec<u8>> = Vec::new();
    for score in [vec![5u8], vec![3], vec![9], vec![1], vec![7]] {
        let worst = board.iter().max().cloned();
        let full = board.len() as i64 >= capacity as i64;
        let step = admission_step(false, board.len() as i64, capacity, if full { worst.as_deref() } else { None }, &score);
        match step {
            AdmissionStep::Reject => {}
            AdmissionStep::Admit { evict_worst } => {
                if evict_worst {
                    let w = board.iter().max().cloned().unwrap();
                    board.retain(|s| *s != w);
                }
                board.push(score);
            }
        }
        assert!(board.len() <= capacity as usize);
    }
    board.sort();
    assert_eq!(board, vec![vec![1], vec![3], vec![5]]);
}
