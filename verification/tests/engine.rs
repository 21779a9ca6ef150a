use neurnet::neu::{NetError, NeurNet};

const ONE: i64 = 16777216;
const N7: i64 = 11744051; // 0.7 in fixed-point steps
const A3: i64 = 5033165; // 0.3 in fixed-point steps

fn xor_weights() -> Vec<i64> {
    vec![5263057, 3798561, 12475314, 15739345, 8273611, 12776115]
}

#[test]
fn empty_topology_is_rejected() {
    let r = NeurNet::new(N7, A3, vec![]);
    assert_eq!(r.err(), Some(NetError::InvalidTopology));
}

#[test]
fn zero_layer_is_rejected() {
    let r = NeurNet::new(N7, A3, vec![0, 2]);
    assert_eq!(r.err(), Some(NetError::InvalidTopology));
    let r = NeurNet::new_from_weights(N7, A3, vec![0, 2], vec![]);
    assert_eq!(r.err(), Some(NetError::InvalidTopology));
    let r = NeurNet::new(N7, A3, vec![2]);
    assert_eq!(r.err(), Some(NetError::InvalidTopology));
}

#[test]
fn construction_builds_complete_bipartite_layers() {
    let net = NeurNet::new(N7, A3, vec![2, 3, 1]).unwrap();
    assert_eq!(net.n, N7);
    assert_eq!(net.a, A3);
    assert_eq!(net.neur_lyr.len(), 3);
    assert_eq!(net.neur_lyr[0].len(), 2);
    assert_eq!(net.neur_lyr[1].len(), 3);
    assert_eq!(net.neur_lyr[2].len(), 1);
    assert_eq!(net.con_lyr.len(), 2);
    assert_eq!(net.con_lyr[0].len(), 6);
    assert_eq!(net.con_lyr[1].len(), 3);
    for lyr in &net.neur_lyr {
        for nr in lyr {
            assert_eq!(nr.val, 0);
            assert_eq!(nr.delta, 0);
        }
    }
    for (l, cl) in net.con_lyr.iter().enumerate() {
        let nk = net.neur_lyr[l + 1].len();
        for (c, cn) in cl.iter().enumerate() {
            assert_eq!(cn.inp as usize, c / nk);
            assert_eq!(cn.out as usize, c % nk);
            assert!(0 <= cn.w && cn.w < ONE);
            assert_eq!(cn.dw, 0);
        }
    }
}

#[test]
fn supplied_weights_are_placed_in_order() {
    let w = vec![10, 20, 30, 40, 50, 60];
    let net = NeurNet::new_from_weights(N7, A3, vec![2, 2, 1], w).unwrap();
    assert_eq!(net.con_lyr[0][0].w, 10);
    assert_eq!(net.con_lyr[0][1].w, 20);
    assert_eq!(net.con_lyr[0][2].w, 30);
    assert_eq!(net.con_lyr[0][3].w, 40);
    assert_eq!(net.con_lyr[1][0].w, 50);
    assert_eq!(net.con_lyr[1][1].w, 60);
}

#[test]
fn define_rejects_wrong_width() {
    let mut net = NeurNet::new_from_weights(N7, A3, vec![2, 2, 1], xor_weights()).unwrap();
    assert_eq!(net.define(vec![0]).err(), Some(NetError::DimensionMismatch));
    assert_eq!(
        net.define(vec![0, 0, 0]).err(),
        Some(NetError::DimensionMismatch)
    );
    assert!(net.define(vec![0, 0]).is_ok());
}

#[test]
fn define_stores_sigmoid_of_each_component() {
    let mut net = NeurNet::new_from_weights(N7, A3, vec![6, 1], vec![0, 0, 0, 0, 0, 0]).unwrap();
    net.define(vec![0, ONE, -ONE, 999999999, -999999999, 8388608])
        .unwrap();
    let got: Vec<i64> = net.neur_lyr[0].iter().map(|nr| nr.val).collect();
    assert_eq!(got, vec![8388608, 12265128, 4512088, 16777215, 1, 10443135]);
}

#[test]
fn calc_output_is_exact_on_a_two_neuron_chain() {
    // One input, one output, weight one half: the forward value is the
    // sigmoid of half the input activation.
    let mut net = NeurNet::new_from_weights(N7, A3, vec![1, 1], vec![8388608]).unwrap();
    net.define(vec![ONE]).unwrap();
    assert_eq!(net.neur_lyr[0][0].val, 12265128);
    let out = net.calc();
    assert_eq!(out, vec![9890587]);
    assert_eq!(net.neur_lyr[1][0].val, 9890587);
}

#[test]
fn calc_output_stays_strictly_inside_unit_interval() {
    let mut net = NeurNet::new(N7, A3, vec![2, 2, 1]).unwrap();
    for inp in [[0, 0], [ONE, 0], [0, ONE], [ONE, ONE], [-900 * ONE, 900 * ONE]] {
        net.define(vec![inp[0], inp[1]]).unwrap();
        let out = net.calc();
        assert_eq!(out.len(), 1);
        assert!(0 < out[0] && out[0] < ONE);
    }
}

#[test]
fn estimate_is_componentwise_squared_error() {
    let mut net = NeurNet::new_from_weights(N7, A3, vec![1, 1], vec![8388608]).unwrap();
    net.define(vec![ONE]).unwrap();
    net.calc();
    let est = net.estimate(vec![ONE]).unwrap();
    // (1 - 9890587 / 2^24)^2 in fixed point, exactly.
    assert_eq!(est, vec![2826789]);
    assert!(est[0] >= 0);
    let est0 = net.estimate(vec![9890587]).unwrap();
    assert_eq!(est0, vec![0]);
}

#[test]
fn estimate_rejects_wrong_width_and_mutates_nothing() {
    let mut net = NeurNet::new_from_weights(N7, A3, vec![2, 2, 1], xor_weights()).unwrap();
    net.define(vec![ONE, 0]).unwrap();
    net.calc();
    let vals: Vec<Vec<i64>> = net
        .neur_lyr
        .iter()
        .map(|l| l.iter().flat_map(|nr| [nr.val, nr.delta]).collect())
        .collect();
    let cons: Vec<Vec<i64>> = net
        .con_lyr
        .iter()
        .map(|l| l.iter().flat_map(|cn| [cn.w, cn.dw]).collect())
        .collect();
    assert_eq!(
        net.estimate(vec![0, 0]).err(),
        Some(NetError::DimensionMismatch)
    );
    net.estimate(vec![ONE]).unwrap();
    let vals2: Vec<Vec<i64>> = net
        .neur_lyr
        .iter()
        .map(|l| l.iter().flat_map(|nr| [nr.val, nr.delta]).collect())
        .collect();
    let cons2: Vec<Vec<i64>> = net
        .con_lyr
        .iter()
        .map(|l| l.iter().flat_map(|cn| [cn.w, cn.dw]).collect())
        .collect();
    assert_eq!(vals, vals2);
    assert_eq!(cons, cons2);
}

#[test]
fn tune_rejects_wrong_width() {
    let mut net = NeurNet::new_from_weights(N7, A3, vec![2, 2, 1], xor_weights()).unwrap();
    net.define(vec![0, 0]).unwrap();
    net.calc();
    assert_eq!(
        net.tune(vec![0, 0]).err(),
        Some(NetError::DimensionMismatch)
    );
}

#[test]
fn tune_updates_deltas_velocity_and_weight_exactly() {
    let mut net = NeurNet::new_from_weights(N7, A3, vec![1, 1], vec![8388608]).unwrap();
    net.define(vec![ONE]).unwrap();
    net.calc();
    net.tune(vec![ONE]).unwrap();
    assert_eq!(net.neur_lyr[1][0].delta, 1666462);
    assert_eq!(net.neur_lyr[0][0].delta, 163823);
    assert_eq!(net.con_lyr[0][0].dw, 852796);
    assert_eq!(net.con_lyr[0][0].w, 9241404);
}

#[test]
fn tune_moves_a_weight_when_a_delta_is_nonzero() {
    let mut net = NeurNet::new_from_weights(N7, A3, vec![2, 2, 1], xor_weights()).unwrap();
    net.define(vec![ONE, 0]).unwrap();
    net.calc();
    let before: Vec<i64> = net.con_lyr.iter().flatten().map(|cn| cn.w).collect();
    net.tune(vec![ONE]).unwrap();
    let after: Vec<i64> = net.con_lyr.iter().flatten().map(|cn| cn.w).collect();
    assert!(net.neur_lyr[2][0].delta != 0);
    assert!(before != after);
}

#[test]
fn momentum_feeds_the_second_call() {
    // Same chain trained twice, once with momentum 0.3 and once with zero:
    // the first updates agree (no stored velocity yet), the second differ.
    let mut with_m = NeurNet::new_from_weights(N7, A3, vec![1, 1], vec![8388608]).unwrap();
    let mut without = NeurNet::new_from_weights(N7, 0, vec![1, 1], vec![8388608]).unwrap();
    for net in [&mut with_m, &mut without] {
        net.define(vec![ONE]).unwrap();
        net.calc();
        net.tune(vec![ONE]).unwrap();
    }
    assert_eq!(with_m.con_lyr[0][0].w, without.con_lyr[0][0].w);
    for net in [&mut with_m, &mut without] {
        net.define(vec![ONE]).unwrap();
        net.calc();
        net.tune(vec![ONE]).unwrap();
    }
    assert_eq!(with_m.con_lyr[0][0].w, 10325229);
    assert_eq!(with_m.con_lyr[0][0].dw, 1083825);
    assert_eq!(without.con_lyr[0][0].w, 10069391);
    assert_eq!(without.con_lyr[0][0].dw, 827987);
    assert!(with_m.con_lyr[0][0].w != without.con_lyr[0][0].w);
}
