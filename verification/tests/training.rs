use neurnet::neu::NeurNet;

const ONE: i64 = 16777216;

#[test]
fn xor_training_drives_error_down() {
    // Topology 2-2-1, learning rate 0.7, momentum 0.3, fixed initial weights
    // standing in for the uniform [0, 1) draws, trained on the four XOR
    // pairs: the average per-epoch squared error falls from near a quarter
    // to below five hundredths.
    let weights = vec![5263057, 3798561, 12475314, 15739345, 8273611, 12776115];
    let mut net =
        NeurNet::new_from_weights(11744051, 5033165, vec![2, 2, 1], weights).unwrap();
    let study = [
        [0, 0, 0],
        [ONE, 0, ONE],
        [0, ONE, ONE],
        [ONE, ONE, 0],
    ];
    let mut first_avg: i64 = -1;
    let mut last_avg: i64 = -1;
    for _epoch in 0..30000 {
        let mut er: i64 = 0;
        for s in study {
            net.define(vec![s[0], s[1]]).unwrap();
            net.calc();
            er += net.estimate(vec![s[2]]).unwrap()[0];
            net.tune(vec![s[2]]).unwrap();
        }
        if first_avg < 0 {
            first_avg = er / 4;
        }
        last_avg = er / 4;
    }
    // Near 0.25 at the start: above 0.1 in fixed-point steps.
    assert!(first_avg > ONE / 10);
    // Below 0.05 at the end.
    assert!(last_avg < ONE / 20);
    // And the trained net now answers the four patterns correctly.
    for s in study {
        net.define(vec![s[0], s[1]]).unwrap();
        let out = net.calc()[0];
        if s[2] == 0 {
            assert!(out < ONE / 4);
        } else {
            assert!(out > 3 * (ONE / 4));
        }
    }
}
