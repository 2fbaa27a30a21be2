use mersenne_twister::mt64::MTRng64;
use mersenne_twister::SeedError;

const TEST_VECTOR: [u64; 90] = [
 7266447313870364031,  4946485549665804864, 16945909448695747420, 16394063075524226720,  4873882236456199058,
14877448043947020171,  6740343660852211943, 13857871200353263164,  5249110015610582907, 10205081126064480383,
 1235879089597390050, 17320312680810499042, 16489141110565194782,  8942268601720066061, 13520575722002588570,
14226945236717732373,  9383926873555417063, 15690281668532552105, 11510704754157191257, 15864264574919463609,
 6489677788245343319,  5112602299894754389, 10828930062652518694, 15942305434158995996, 15445717675088218264,
 4764500002345775851, 14673753115101942098,   236502320419669032, 13670483975188204088, 14931360615268175698,
 8904234204977263924, 12836915408046564963, 12120302420213647524, 15755110976537356441,  5405758943702519480,
10951858968426898805, 17251681303478610375,  4144140664012008120, 18286145806977825275, 13075804672185204371,
10831805955733617705,  6172975950399619139, 12837097014497293886, 12903857913610213846,   560691676108914154,
 1074659097419704618, 14266121283820281686, 11696403736022963346, 13383246710985227247,  7132746073714321322,
10608108217231874211,  9027884570906061560, 12893913769120703138, 15675160838921962454,  2511068401785704737,
14483183001716371453,  3774730664208216065,  5083371700846102796,  9583498264570933637, 17119870085051257224,
 5217910858257235075, 10612176809475689857,  1924700483125896976,  7171619684536160599, 10949279256701751503,
15596196964072664893, 14097948002655599357,   615821766635933047,  5636498760852923045, 17618792803942051220,
  580805356741162327,   425267967796817241,  8381470634608387938, 13212228678420887626, 16993060308636741960,
  957923366004347591,  6210242862396777185,  1012818702180800310, 15299383925974515757, 17501832009465945633,
17453794942891241229, 15807805462076484491,  8407189590930420827,   974125122787311712,  1861591264068118966,
  997568339582634050, 18046771844467391493, 17981867688435687790,  3809841506498447207,  9460108917638135678,
    ];

fn take(rng: &mut MTRng64, k: usize) -> Vec<u64> {
    (0..k).map(|_| rng.next_u64()).collect()
}

#[test]
fn mt64_test_vector() {
    let mut rng = MTRng64::new_array([0x12345, 0x23456, 0x34567, 0x45678].as_slice()).unwrap();
    let values: Vec<u64> = take(&mut rng, TEST_VECTOR.len());
    assert_eq!(values.as_slice(), TEST_VECTOR.as_slice());
}

#[test]
fn mt64_first_five_of_key() {
    let mut rng = MTRng64::new_array(&[0x12345, 0x23456, 0x34567, 0x45678]).unwrap();
    assert_eq!(
        take(&mut rng, 5),
        vec![7266447313870364031, 4946485549665804864, 16945909448695747420, 16394063075524226720, 4873882236456199058]
    );
}

#[test]
fn mt64_default_seed_outputs() {
    let mut rng: MTRng64 = Default::default();
    assert_eq!(rng.next_u64(), 14514284786278117030);
    take(&mut rng, 9998);
    assert_eq!(rng.next_u64(), 9981545732273789042);
}

#[test]
fn mt64_narrow_output_is_low_half() {
    let mut wide = MTRng64::new(31337);
    let mut narrow = wide.clone();
    for _ in 0..700 {
        let w = wide.next_u64();
        assert_eq!(narrow.next_u32(), w as u32);
    }
}

#[test]
fn mt64_scalar_seed_determinism() {
    for seed in [0u64, 1, 42, 5489, u64::MAX] {
        let mut a = MTRng64::new(seed);
        let mut b = MTRng64::new(seed);
        assert_eq!(take(&mut a, 700), take(&mut b, 700));
    }
}

#[test]
fn mt64_array_seed_determinism() {
    let key: Vec<u64> = (0..500u64).map(|i| i.wrapping_mul(0x9E3779B97F4A7C15)).collect();
    let mut a = MTRng64::new_array(&key).unwrap();
    let mut b = MTRng64::new_array(&key).unwrap();
    assert_eq!(take(&mut a, 700), take(&mut b, 700));
}

#[test]
fn mt64_empty_key_rejected() {
    assert!(matches!(MTRng64::new_array(&[]), Err(SeedError::InvalidSeed)));
    let mut a = MTRng64::new(3);
    let mut b = MTRng64::new(3);
    assert_eq!(a.reseed_array(&[]), Err(SeedError::InvalidSeed));
    assert_eq!(take(&mut a, 400), take(&mut b, 400));
}

#[test]
fn mt64_reseed_resets() {
    let mut used = MTRng64::new(123);
    take(&mut used, 1000);
    used.reseed(77);
    let mut fresh = MTRng64::new(77);
    assert_eq!(take(&mut used, 700), take(&mut fresh, 700));
    assert_eq!(used.reseed_array(&[0x12345, 0x23456, 0x34567, 0x45678]), Ok(()));
    assert_eq!(take(&mut used, 90), TEST_VECTOR.to_vec());
}

#[test]
fn mt64_clone_independence() {
    let mut original = MTRng64::new(2024);
    take(&mut original, 200);
    let mut copy = original.clone();
    for _ in 0..700 {
        assert_eq!(copy.next_u64(), original.next_u64());
    }
    take(&mut copy, 5);
    let mut reference = MTRng64::new(2024);
    take(&mut reference, 900);
    assert_eq!(original.next_u64(), reference.next_u64());
}

#[test]
fn mt64_blocks_differ() {
    let mut rng = MTRng64::new(5489);
    let words = take(&mut rng, 2 * 312 + 1);
    assert_ne!(&words[0..312], &words[312..624]);
    assert_ne!(words[0], words[624]);
}
