use sine_benchmark::error::ProtocolError;
use sine_benchmark::order::compare_keys;
use sine_benchmark::sharing::{aggregate, find_key, partial_sum};

fn table(entries: &[(&str, i64)]) -> Vec<(String, i64)> {
    entries.iter().map(|(k, v)| (k.to_string(), *v)).collect()
}

/// Runs the exchange among all participants with the given inputs, where
/// participant `i` sends `shares[i][j]` (one value per key) to participant
/// `j`, and returns the leader's result.
fn run(inputs: &[Vec<(String, i64)>], shares: &[Vec<Vec<i64>>]) -> Vec<(String, i64)> {
    let n = inputs.len();
    let mut partials = Vec::new();
    for i in 0..n {
        let sent: Vec<Vec<i64>> = (0..n).filter(|j| *j != i).map(|j| shares[i][j].clone()).collect();
        let mut received = Vec::new();
        for j in 0..n {
            if j != i {
                for (idx, (k, _)) in inputs[j].iter().enumerate() {
                    received.push((k.clone(), shares[j][i][idx]));
                }
            }
        }
        partials.push(partial_sum(&inputs[i], &sent, &received).unwrap());
    }
    aggregate(&partials)
}

fn average(total: i64, n: usize) -> String {
    format!("{:.2}", (total as f64 / n as f64) / 100.00)
}

fn scaled(x: f64) -> i64 {
    (x * 100.0).round() as i64
}

#[test]
fn three_party_basic() {
    let input = table(&[("example1", 1000), ("example2", 1500), ("example3", 1800)]);
    let inputs = vec![input.clone(), input.clone(), input];
    let shares = vec![
        vec![vec![0, 0, 0], vec![17, -4, 99], vec![i64::MAX, 3, -7]],
        vec![vec![5, 6, 7], vec![0, 0, 0], vec![-123456789, i64::MIN, 42]],
        vec![vec![-1, -2, -3], vec![888, 777, 666], vec![0, 0, 0]],
    ];
    let result = run(&inputs, &shares);
    assert_eq!(result, table(&[("example1", 3000), ("example2", 4500), ("example3", 5400)]));
    let shown: Vec<String> = result.iter().map(|(_, t)| average(*t, 3)).collect();
    assert_eq!(shown, vec!["10.00", "15.00", "18.00"]);
}

#[test]
fn mixed_values() {
    let inputs = vec![table(&[("x", 100)]), table(&[("x", 200)]), table(&[("x", 300)])];
    let shares = vec![
        vec![vec![0], vec![i64::MIN], vec![12]],
        vec![vec![-99], vec![0], vec![i64::MAX]],
        vec![vec![1], vec![2], vec![0]],
    ];
    let result = run(&inputs, &shares);
    assert_eq!(result, table(&[("x", 600)]));
    assert_eq!(average(result[0].1, 3), "2.00");
}

#[test]
fn fractional_scaling() {
    let inputs: Vec<Vec<(String, i64)>> =
        [0.5, 1.5, 2.5].iter().map(|y| vec![("y".to_string(), scaled(*y))]).collect();
    assert_eq!(inputs[0][0].1, 50);
    let shares = vec![
        vec![vec![0], vec![31], vec![-31]],
        vec![vec![4], vec![0], vec![9]],
        vec![vec![77], vec![-5], vec![0]],
    ];
    let result = run(&inputs, &shares);
    assert_eq!(result, table(&[("y", 450)]));
    assert_eq!(average(result[0].1, 3), "1.50");
}

#[test]
fn masking_hides_the_input() {
    let local = table(&[("k", 10)]);
    let sent = vec![vec![1000], vec![-3]];
    let partial = partial_sum(&local, &sent, &Vec::new()).unwrap();
    assert_eq!(partial, table(&[("k", 10 - 1000 + 3)]));
}

#[test]
fn partial_sum_wraps_around() {
    let local = table(&[("k", i64::MAX)]);
    let sent = vec![vec![-1]];
    let received = table(&[("k", i64::MAX)]);
    let partial = partial_sum(&local, &sent, &received).unwrap();
    assert_eq!(partial[0].1, i64::MAX.wrapping_add(1).wrapping_add(i64::MAX));
}

#[test]
fn received_shares_add_per_key() {
    let local = table(&[("a", 1), ("b", 2)]);
    let sent = vec![vec![0, 0], vec![0, 0]];
    let received = table(&[("b", 10), ("a", 20), ("b", 30)]);
    let partial = partial_sum(&local, &sent, &received).unwrap();
    assert_eq!(partial, table(&[("a", 21), ("b", 42)]));
}

#[test]
fn unknown_key_is_refused() {
    let local = table(&[("a", 1)]);
    let received = table(&[("z", 5)]);
    assert_eq!(partial_sum(&local, &Vec::new(), &received), Err(ProtocolError::UnknownKey));
}

#[test]
fn result_lists_keys_in_byte_order() {
    let sums = vec![table(&[("b", 1), ("ab", 2)]), table(&[("a", 3), ("b", 4)])];
    let result = aggregate(&sums);
    assert_eq!(result, table(&[("a", 3), ("ab", 2), ("b", 5)]));
    assert_eq!(aggregate(&Vec::new()), Vec::new());
}

#[test]
fn aggregate_wraps_around() {
    let sums = vec![table(&[("k", i64::MAX)]), table(&[("k", 2)])];
    assert_eq!(aggregate(&sums), table(&[("k", i64::MIN + 1)]));
}

#[test]
fn key_order_matches_string_order() {
    let words = ["", "a", "ab", "b", "é", "z", "Z", "zz"];
    for x in words.iter() {
        for y in words.iter() {
            let c = compare_keys(&x.to_string(), &y.to_string());
            assert_eq!(c.signum() as i32, x.cmp(y) as i32);
        }
    }
}

#[test]
fn find_key_locates_entries() {
    let t = table(&[("a", 1), ("b", 2)]);
    assert_eq!(find_key(&t, &"b".to_string()), Some(1));
    assert_eq!(find_key(&t, &"c".to_string()), None);
}
