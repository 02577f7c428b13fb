use zkfl::field::Scalar;
use zkfl::inference::{
    matrix_from_u64, scalars_from_u64, tensor3_from_u64, tensor4_from_u64, CounterUpdate,
    InferenceCircuit, InferenceIteration, ModelWeight,
};
use zkfl::layers::{contains_value, conv2d, dense, flatten, pad, pool};

fn s(x: u64) -> Scalar {
    Scalar::from_u64(x)
}

fn from_bytes(v: Vec<[u8; 32]>) -> Vec<Scalar> {
    v.into_iter().map(|b| Scalar::from_repr(b).unwrap()).collect()
}

fn small_image() -> Vec<Vec<Vec<u64>>> {
    vec![vec![vec![1, 2], vec![3, 4]]]
}

fn small_model(b4: Vec<u64>) -> ModelWeight {
    ModelWeight::new(
        &vec![vec![vec![vec![1, 2, 3], vec![4, 5, 6], vec![7, 8, 9]]]],
        &vec![vec![vec![vec![1, 1], vec![1, 1]]]],
        &vec![vec![2]],
        &vec![vec![1], vec![3]],
        &vec![10],
        &vec![0],
        &vec![1],
        &b4,
    )
}

#[test]
fn pad_surrounds_with_zeros() {
    let x = tensor3_from_u64(&small_image());
    let expected = tensor3_from_u64(&vec![vec![
        vec![0, 0, 0, 0],
        vec![0, 1, 2, 0],
        vec![0, 3, 4, 0],
        vec![0, 0, 0, 0],
    ]]);
    assert_eq!(pad(&x), expected);
}

#[test]
fn pad_uses_the_first_plane_for_the_shape() {
    // The second plane is larger: only its first rows and columns are kept.
    let x = tensor3_from_u64(&vec![vec![vec![5]], vec![vec![6, 7], vec![8, 9]]]);
    let expected = tensor3_from_u64(&vec![
        vec![vec![0, 0, 0], vec![0, 5, 0], vec![0, 0, 0]],
        vec![vec![0, 0, 0], vec![0, 6, 0], vec![0, 0, 0]],
    ]);
    assert_eq!(pad(&x), expected);
}

#[test]
fn conv2d_adds_window_and_bias() {
    let x = pad(&tensor3_from_u64(&small_image()));
    let w = tensor4_from_u64(&vec![vec![vec![vec![1, 2, 3], vec![4, 5, 6], vec![7, 8, 9]]]]);
    let b = scalars_from_u64(&vec![10]);
    let expected = tensor3_from_u64(&vec![vec![vec![87, 77], vec![57, 47]]]);
    assert_eq!(conv2d(&x, &w, &b), expected);
}

#[test]
fn conv2d_with_an_empty_kernel_gives_the_bias() {
    let x = tensor3_from_u64(&vec![vec![vec![1, 2], vec![3, 4]]]);
    let w = tensor4_from_u64(&vec![vec![vec![]]]);
    let b = scalars_from_u64(&vec![7]);
    // Output side: 2 - 0 + 1 = 3.
    let expected = tensor3_from_u64(&vec![vec![vec![7, 7, 7], vec![7, 7, 7], vec![7, 7, 7]]]);
    assert_eq!(conv2d(&x, &w, &b), expected);
}

#[test]
fn pool_keeps_the_maximum_of_each_window() {
    let x = tensor3_from_u64(&vec![
        vec![vec![1, 2, 3], vec![4, 5, 6], vec![7, 8, 9]],
        vec![vec![9, 1, 7], vec![2, 3, 8], vec![6, 5, 4]],
    ]);
    let expected = tensor3_from_u64(&vec![
        vec![vec![5, 6], vec![8, 9]],
        vec![vec![9, 8], vec![6, 8]],
    ]);
    assert_eq!(pool(&x), expected);
}

#[test]
fn pool_compares_values_not_bytes() {
    // 256 is encoded with a zero first byte, 255 with 255 first.
    let x = tensor3_from_u64(&vec![vec![vec![255, 256], vec![3, 1]]]);
    assert_eq!(pool(&x), tensor3_from_u64(&vec![vec![vec![256]]]));
}

#[test]
fn max_pooling_reaches_the_label() {
    let data = InferenceIteration { image: tensor3_from_u64(&vec![vec![vec![1]]]), label: s(4) };
    let weights = ModelWeight::new(
        &vec![vec![vec![vec![1, 2], vec![3, 4]]]],
        &vec![vec![vec![vec![1, 1], vec![1, 1]]]],
        &vec![vec![1]],
        &vec![vec![1]],
        &vec![0],
        &vec![0],
        &vec![0],
        &vec![0],
    );
    let c = InferenceCircuit::new(data, weights);
    // The first convolution gives [[4, 3], [2, 1]]; its window maximum, 4,
    // reaches the output.
    assert_eq!(c.synthesize(), CounterUpdate::Increment);
    assert_eq!(c.synthesize().apply(&vec![Scalar::zero()]), vec![s(1)]);
}

#[test]
fn conv2d_with_an_empty_kernel_ignores_the_other_kernels() {
    // With a first kernel of size 0 the other kernels are never read.
    let x = tensor3_from_u64(&vec![vec![vec![1, 2], vec![3, 4]]]);
    let w = tensor4_from_u64(&vec![vec![vec![]], vec![]]);
    let b = scalars_from_u64(&vec![7, 8]);
    let expected = tensor3_from_u64(&vec![
        vec![vec![7, 7, 7], vec![7, 7, 7], vec![7, 7, 7]],
        vec![vec![8, 8, 8], vec![8, 8, 8], vec![8, 8, 8]],
    ]);
    assert_eq!(conv2d(&x, &w, &b), expected);
}

#[test]
fn flatten_orders_by_plane_row_column() {
    let x = tensor3_from_u64(&vec![vec![vec![1, 2], vec![3]], vec![], vec![vec![4], vec![5, 6]]]);
    assert_eq!(flatten(&x), scalars_from_u64(&vec![1, 2, 3, 4, 5, 6]));
}

#[test]
fn dense_computes_dot_plus_bias() {
    let x = scalars_from_u64(&vec![1, 2, 3]);
    let w = matrix_from_u64(&vec![vec![1, 1, 1], vec![2], vec![]]);
    let b = scalars_from_u64(&vec![10, 20, 30, 40]);
    assert_eq!(dense(&x, &w, &b), scalars_from_u64(&vec![16, 22, 30]));
}

#[test]
fn contains_value_finds_an_element() {
    let v = scalars_from_u64(&vec![4, 8, 15]);
    assert!(contains_value(&v, &s(8)));
    assert!(!contains_value(&v, &s(16)));
    assert!(!contains_value(&Vec::new(), &s(0)));
}

#[test]
fn inference_iteration_label_is_max_u64() {
    let it = InferenceIteration::new(&small_image());
    assert_eq!(it.label, s(u64::MAX));
    assert_eq!(it.image, tensor3_from_u64(&small_image()));
}

#[test]
fn network_misses_the_label() {
    let c = InferenceCircuit::new(InferenceIteration::new(&small_image()), small_model(vec![0, 0]));
    // Outputs are 175 and 525.
    assert!(!c.correct_prediction());
    assert_eq!(c.synthesize(), CounterUpdate::Keep);
}

#[test]
fn network_hits_the_label() {
    let c = InferenceCircuit::new(
        InferenceIteration::new(&small_image()),
        small_model(vec![0, u64::MAX - 525]),
    );
    assert!(c.correct_prediction());
    assert_eq!(c.synthesize(), CounterUpdate::Increment);
}

#[test]
fn network_layers_on_large_values() {
    let x = tensor3_from_u64(&big_image());
    let w1 = tensor4_from_u64(&big_w1());
    let b1 = scalars_from_u64(&big_b1());
    let w2 = tensor4_from_u64(&big_w2());
    let b2 = scalars_from_u64(&big_b2());
    let h1 = pool(&conv2d(&pad(&x), &w1, &b1));
    let h2 = pool(&conv2d(&pad(&h1), &w2, &b2));
    let f = flatten(&h2);
    assert_eq!(f, from_bytes(big_flat_expected()));
    let d1 = dense(&f, &matrix_from_u64(&big_w3()), &scalars_from_u64(&big_b3()));
    assert_eq!(d1, from_bytes(big_dense1_expected()));
    let d2 = dense(&d1, &matrix_from_u64(&big_w4()), &scalars_from_u64(&big_b4()));
    assert_eq!(d2, from_bytes(big_outputs_expected()));
    let model = ModelWeight::new(
        &big_w1(),
        &big_w2(),
        &big_w3(),
        &big_w4(),
        &big_b1(),
        &big_b2(),
        &big_b3(),
        &big_b4(),
    );
    let c = InferenceCircuit::new(InferenceIteration::new(&big_image()), model);
    assert!(!c.correct_prediction());
}

#[test]
fn increment_adds_one_to_the_counter() {
    let z = vec![s(5)];
    assert_eq!(CounterUpdate::Increment.apply(&z), vec![s(6)]);
}

#[test]
fn keep_passes_the_state_through() {
    let z = vec![s(5), s(9)];
    assert_eq!(CounterUpdate::Keep.apply(&z), z);
}

#[test]
fn counter_counts_correct_predictions() {
    let hit = || {
        InferenceCircuit::new(
            InferenceIteration::new(&small_image()),
            small_model(vec![0, u64::MAX - 525]),
        )
    };
    let miss = || InferenceCircuit::new(InferenceIteration::new(&small_image()), small_model(vec![0, 0]));
    let circuits = vec![hit(), miss(), hit(), hit(), miss()];
    let mut z = vec![Scalar::zero()];
    for c in circuits.iter() {
        z = c.synthesize().apply(&z);
    }
    assert_eq!(z, vec![s(3)]);
}

#[test]
fn arity_is_one() {
    let c = InferenceCircuit::new(InferenceIteration::new(&small_image()), small_model(vec![0, 0]));
    assert_eq!(c.arity(), 1);
}

fn big_image() -> Vec<Vec<Vec<u64>>> { vec![vec![vec![17485029721327973432u64, 12007621696699967246u64, 691672907343361484u64], vec![7713914763314685786u64, 17482144350526720241u64, 10801332806156616911u64], vec![18008728104892228252u64, 5342348423785332397u64, 9973894190648387236u64]], vec![vec![12580729232405932079u64, 3465608723044488519u64, 10410757471710933047u64], vec![3799267732704684465u64, 9808507260218814804u64, 5794992457191552792u64], vec![17034486841352872401u64, 5529725096132913496u64, 4502785970640448032u64]]] }

fn big_w1() -> Vec<Vec<Vec<Vec<u64>>>> { vec![vec![vec![vec![16143437395134509574u64, 8279529517580348704u64, 18081034654816976124u64], vec![9443493973184843536u64, 13966785042261406932u64, 17215796697752958293u64], vec![15095954672103411799u64, 12825935695043510850u64, 8415503028500634845u64]], vec![vec![1199037988655718682u64, 12940243841829388815u64, 15161836149580074803u64], vec![13219449544881422511u64, 12334465609073234568u64, 17351903399058517767u64], vec![9107028356925881720u64, 14171397293061469947u64, 13620400289077817551u64]]], vec![vec![vec![9158932120814846640u64, 8286044980549974810u64, 15113045542098016126u64], vec![10149759373500356105u64, 17667022505403259337u64, 1530797443831218365u64], vec![222524240882821610u64, 10867410612808485934u64, 5200704002102353093u64]], vec![vec![17581553493465925877u64, 13646619911422440155u64, 7343088558111125923u64], vec![1909922256862383277u64, 7386862741276904715u64, 8128131123591086346u64], vec![1888570237800257629u64, 17505014860331192732u64, 470408434624094880u64]]]] }

fn big_b1() -> Vec<u64> { vec![17625274181490046686u64, 6717629741759657999u64] }

fn big_w2() -> Vec<Vec<Vec<Vec<u64>>>> { vec![vec![vec![vec![8861725518971213271u64, 1584292481964805566u64], vec![13829042992677713843u64, 4883902672325290085u64]], vec![vec![12766194175229025723u64, 426040910936965058u64], vec![16863013312714856715u64, 9741899683660671018u64]]], vec![vec![vec![9562734205945278984u64, 3081381641390891476u64], vec![11740281409835953346u64, 14869525402085562119u64]], vec![vec![4182605341464643325u64, 9090220536709249208u64], vec![14575033254955901532u64, 4780923202390243725u64]]], vec![vec![vec![1485666276295100165u64, 4184566965981345929u64], vec![6230156883271570909u64, 3676793966273574034u64]], vec![vec![3293144527096134078u64, 11729218709926234015u64], vec![13315316138456811569u64, 508186616977004084u64]]]] }

fn big_b2() -> Vec<u64> { vec![16691575011785275782u64, 12098448278114724340u64, 6463877758182088426u64] }

fn big_w3() -> Vec<Vec<u64>> { vec![vec![10114083518359600158u64, 2568722533889214731u64, 16080818775524278451u64, 16120736080625330453u64, 4645532327935121618u64, 9244805737396296913u64, 10817856370779391136u64, 10041536155073493809u64, 2417882676436258228u64, 13649152744835440829u64, 9810439048248537981u64, 9417930179256551193u64], vec![11225851778637506717u64, 14742092780015353173u64, 2611302114837588511u64, 13377454710168841015u64, 1139183976791224287u64, 1048191461099540831u64, 5108218392246579288u64, 10362078232446094636u64, 8176489675875741877u64, 9447711714770147008u64, 5113170749390508461u64, 15495261038602671999u64], vec![7685597136420552212u64, 8155639264629095908u64, 12380632848989839749u64, 1348840103260691079u64, 12179582975594834372u64, 17848051055148080670u64, 15355893835791538675u64, 13029369749418923760u64, 9511234609161669348u64, 7771179368592724173u64, 5875759706228333429u64, 6750632429890756737u64], vec![10220423171082147364u64, 12970853484088908961u64, 1185955884618306797u64, 1550656655150208497u64, 3349032058418389055u64, 7488415712368931668u64, 1650286428354605943u64, 11703343250932700532u64, 4806334029919389710u64, 15794630573092340705u64, 8370644020634206890u64, 11468404546600072402u64]] }

fn big_b3() -> Vec<u64> { vec![17305368752183453451u64, 2978210162061235421u64, 3341553327520722793u64, 5348833356563087200u64] }

fn big_w4() -> Vec<Vec<u64>> { vec![vec![12399111896077553268u64, 18345268316004046417u64, 283085898842997568u64, 11992338920687058974u64], vec![16394100582864470570u64, 9346706137210578094u64, 6321784590424136346u64, 11731704108457232400u64], vec![18251910821164238045u64, 262960739054766719u64, 7945763668488001968u64, 11045512136731969422u64]] }

fn big_b4() -> Vec<u64> { vec![5405975068143769244u64, 3419141436738549081u64, 8224012570766317311u64] }

fn big_flat_expected() -> Vec<[u8; 32]> { vec![[100, 165, 218, 108, 244, 185, 128, 36, 176, 43, 141, 174, 174, 102, 118, 215, 91, 145, 17, 80, 30, 11, 47, 153, 18, 0, 0, 0, 0, 0, 0, 0], [100, 165, 218, 108, 244, 185, 128, 36, 176, 43, 141, 174, 174, 102, 118, 215, 91, 145, 17, 80, 30, 11, 47, 153, 18, 0, 0, 0, 0, 0, 0, 0], [100, 165, 218, 108, 244, 185, 128, 36, 176, 43, 141, 174, 174, 102, 118, 215, 91, 145, 17, 80, 30, 11, 47, 153, 18, 0, 0, 0, 0, 0, 0, 0], [100, 165, 218, 108, 244, 185, 128, 36, 176, 43, 141, 174, 174, 102, 118, 215, 91, 145, 17, 80, 30, 11, 47, 153, 18, 0, 0, 0, 0, 0, 0, 0], [234, 55, 194, 135, 67, 185, 170, 50, 159, 250, 101, 218, 188, 56, 159, 69, 32, 19, 60, 177, 247, 200, 164, 101, 20, 0, 0, 0, 0, 0, 0, 0], [234, 55, 194, 135, 67, 185, 170, 50, 159, 250, 101, 218, 188, 56, 159, 69, 32, 19, 60, 177, 247, 200, 164, 101, 20, 0, 0, 0, 0, 0, 0, 0], [234, 55, 194, 135, 67, 185, 170, 50, 159, 250, 101, 218, 188, 56, 159, 69, 32, 19, 60, 177, 247, 200, 164, 101, 20, 0, 0, 0, 0, 0, 0, 0], [234, 55, 194, 135, 67, 185, 170, 50, 159, 250, 101, 218, 188, 56, 159, 69, 32, 19, 60, 177, 247, 200, 164, 101, 20, 0, 0, 0, 0, 0, 0, 0], [200, 240, 187, 225, 207, 239, 236, 18, 27, 14, 82, 82, 133, 209, 122, 249, 130, 128, 127, 180, 100, 135, 175, 157, 11, 0, 0, 0, 0, 0, 0, 0], [200, 240, 187, 225, 207, 239, 236, 18, 27, 14, 82, 82, 133, 209, 122, 249, 130, 128, 127, 180, 100, 135, 175, 157, 11, 0, 0, 0, 0, 0, 0, 0], [200, 240, 187, 225, 207, 239, 236, 18, 27, 14, 82, 82, 133, 209, 122, 249, 130, 128, 127, 180, 100, 135, 175, 157, 11, 0, 0, 0, 0, 0, 0, 0], [200, 240, 187, 225, 207, 239, 236, 18, 27, 14, 82, 82, 133, 209, 122, 249, 130, 128, 127, 180, 100, 135, 175, 157, 11, 0, 0, 0, 0, 0, 0, 0]] }

fn big_dense1_expected() -> Vec<[u8; 32]> { vec![[127, 53, 132, 205, 170, 127, 222, 40, 58, 183, 163, 8, 189, 116, 38, 59, 185, 49, 154, 225, 89, 158, 220, 25, 22, 30, 203, 123, 231, 132, 164, 11], [83, 92, 230, 44, 254, 179, 132, 172, 202, 240, 177, 207, 64, 145, 221, 5, 194, 118, 154, 70, 136, 234, 46, 225, 252, 165, 109, 41, 15, 44, 217, 20], [44, 100, 147, 26, 102, 250, 113, 235, 190, 83, 122, 54, 73, 23, 147, 226, 116, 118, 58, 137, 9, 255, 188, 1, 155, 166, 29, 87, 107, 183, 188, 1], [50, 185, 123, 40, 131, 123, 210, 184, 53, 60, 123, 242, 225, 98, 149, 99, 73, 189, 190, 112, 245, 32, 131, 109, 31, 47, 164, 26, 105, 98, 163, 24]] }

fn big_outputs_expected() -> Vec<[u8; 32]> { vec![[233, 72, 71, 29, 102, 70, 108, 211, 202, 40, 105, 204, 177, 189, 221, 65, 201, 12, 222, 83, 46, 247, 125, 121, 254, 156, 4, 80, 168, 27, 225, 38], [136, 97, 107, 123, 252, 78, 235, 7, 233, 128, 221, 194, 98, 213, 224, 96, 153, 66, 75, 250, 105, 171, 156, 198, 102, 236, 185, 228, 107, 197, 178, 7], [10, 59, 245, 243, 77, 10, 226, 139, 62, 159, 241, 57, 88, 208, 28, 6, 219, 10, 146, 180, 202, 254, 123, 185, 43, 8, 84, 255, 13, 59, 243, 22]] }
