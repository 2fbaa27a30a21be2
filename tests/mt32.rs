use mersenne_twister::mt32::MTRng32;
use mersenne_twister::SeedError;

const TEST_VECTOR: [u32; 80] = [
        1067595299,  955945823,  477289528, 4107218783, 4228976476,
        3344332714, 3355579695,  227628506,  810200273, 2591290167,
        2560260675, 3242736208,  646746669, 1479517882, 4245472273,
        1143372638, 3863670494, 3221021970, 1773610557, 1138697238,
        1421897700, 1269916527, 2859934041, 1764463362, 3874892047,
        3965319921,   72549643, 2383988930, 2600218693, 3237492380,
        2792901476,  725331109,  605841842,  271258942,  715137098,
        3297999536, 1322965544, 4229579109, 1395091102, 3735697720,
        2101727825, 3730287744, 2950434330, 1661921839, 2895579582,
        2370511479, 1004092106, 2247096681, 2111242379, 3237345263,
        4082424759,  219785033, 2454039889, 3709582971,  835606218,
        2411949883, 2735205030,  756421180, 2175209704, 1873865952,
        2762534237, 4161807854, 3351099340,  181129879, 3269891896,
         776029799, 2218161979, 3001745796, 1866825872, 2133627728,
          34862734, 1191934573, 3102311354, 2916517763, 1012402762,
        2184831317, 4257399449, 2899497138, 3818095062, 3030756734,
    ];

fn take(rng: &mut MTRng32, k: usize) -> Vec<u32> {
    (0..k).map(|_| rng.next_u32()).collect()
}

#[test]
fn mt32_test_vector() {
    let mut rng = MTRng32::new_array(&[0x123, 0x234, 0x345, 0x456][..]).unwrap();
    let values: Vec<u32> = take(&mut rng, TEST_VECTOR.len());
    assert_eq!(&values[..], &TEST_VECTOR[..]);
}

#[test]
fn mt32_first_five_of_key() {
    let mut rng = MTRng32::new_array(&[0x123, 0x234, 0x345, 0x456]).unwrap();
    assert_eq!(take(&mut rng, 5), vec![1067595299, 955945823, 477289528, 4107218783, 4228976476]);
}

#[test]
fn mt32_default_seed_outputs() {
    let mut rng: MTRng32 = Default::default();
    assert_eq!(rng.next_u32(), 3499211612);
    let rest = take(&mut rng, 9998);
    assert_eq!(rng.next_u32(), 4123659995);
    assert_eq!(rest.len(), 9998);
}

#[test]
fn mt32_default_is_seed_5489() {
    let mut a = MTRng32::default();
    let mut b = MTRng32::new(5489);
    assert_eq!(take(&mut a, 700), take(&mut b, 700));
}

#[test]
fn mt32_scalar_seed_determinism() {
    for seed in [0u32, 1, 42, 5489, u32::MAX] {
        let mut a = MTRng32::new(seed);
        let mut b = MTRng32::new(seed);
        assert_eq!(take(&mut a, 1300), take(&mut b, 1300));
    }
}

#[test]
fn mt32_different_seeds_differ() {
    let mut a = MTRng32::new(1);
    let mut b = MTRng32::new(2);
    assert_ne!(take(&mut a, 10), take(&mut b, 10));
}

#[test]
fn mt32_array_seed_determinism() {
    let key: Vec<u32> = (0..1000u32).map(|i| i.wrapping_mul(2654435761)).collect();
    let mut a = MTRng32::new_array(&key).unwrap();
    let mut b = MTRng32::new_array(&key).unwrap();
    assert_eq!(take(&mut a, 1300), take(&mut b, 1300));
    let mut c = MTRng32::new_array(&[7]).unwrap();
    let mut d = MTRng32::new_array(&[7]).unwrap();
    assert_eq!(take(&mut c, 700), take(&mut d, 700));
}

#[test]
fn mt32_empty_key_rejected() {
    assert!(matches!(MTRng32::new_array(&[]), Err(SeedError::InvalidSeed)));
}

#[test]
fn mt32_reseed_array_empty_key_keeps_state() {
    let mut a = MTRng32::new(9);
    let mut b = MTRng32::new(9);
    take(&mut a, 3);
    take(&mut b, 3);
    assert_eq!(a.reseed_array(&[]), Err(SeedError::InvalidSeed));
    assert_eq!(take(&mut a, 700), take(&mut b, 700));
}

#[test]
fn mt32_reseed_resets() {
    let mut used = MTRng32::new(123);
    take(&mut used, 1000);
    used.reseed(77);
    let mut fresh = MTRng32::new(77);
    assert_eq!(take(&mut used, 1300), take(&mut fresh, 1300));
}

#[test]
fn mt32_reseed_array_resets() {
    let mut used = MTRng32::new(123);
    take(&mut used, 10);
    assert_eq!(used.reseed_array(&[0x123, 0x234, 0x345, 0x456]), Ok(()));
    assert_eq!(take(&mut used, 80), TEST_VECTOR.to_vec());
}

#[test]
fn mt32_clone_independence() {
    let mut original = MTRng32::new(2024);
    take(&mut original, 500);
    let mut copy = original.clone();
    for _ in 0..1300 {
        assert_eq!(copy.next_u32(), original.next_u32());
    }
    take(&mut copy, 5);
    let mut reference = MTRng32::new(2024);
    take(&mut reference, 1800);
    assert_eq!(original.next_u32(), reference.next_u32());
}

#[test]
fn mt32_blocks_differ() {
    let mut rng = MTRng32::new(5489);
    let words = take(&mut rng, 2 * 624 + 1);
    assert_ne!(&words[0..624], &words[624..1248]);
    assert_ne!(words[0], words[1248]);
}
