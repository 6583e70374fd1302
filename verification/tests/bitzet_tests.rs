use mocca_matrix::bitzet::Bitzet;
use mocca_matrix::math::Vec2;
use mocca_matrix::zorder::{zorder, zorder_inverse};
use mocca_matrix::Error;

#[test]
fn test_iter_basic() {
    let mut bs = Bitzet::new(128);
    bs.insert(Vec2::new(1, 1)).unwrap();
    bs.insert(Vec2::new(2, 1)).unwrap();
    bs.insert(Vec2::new(3, 1)).unwrap();

    let mut bs2 = Bitzet::new(128);
    bs2.insert(Vec2::new(2, 1)).unwrap();
    let bs3 = bs.difference(&bs2);
    let s = bs3.to_vec();
    println!("s: {:?}", s);
}

#[test]
fn test_iter_4q() {
    let mut bs = Bitzet::new(128);
    bs.insert(Vec2::new(1, 1)).unwrap();
    bs.insert(Vec2::new(2, 1)).unwrap();
    bs.insert(Vec2::new(3, 1)).unwrap();

    bs.insert(Vec2::new(-5, 2)).unwrap();
    bs.insert(Vec2::new(3, -7)).unwrap();
    bs.insert(Vec2::new(-12, -13)).unwrap();

    bs.insert(Vec2::new(-5, 1)).unwrap();
    bs.insert(Vec2::new(2, -7)).unwrap();
    bs.insert(Vec2::new(-11, -13)).unwrap();

    let mut bs2 = Bitzet::new(128);
    bs2.insert(Vec2::new(2, 1)).unwrap();
    bs2.insert(Vec2::new(-5, 2)).unwrap();
    bs2.insert(Vec2::new(3, -7)).unwrap();
    bs2.insert(Vec2::new(-12, -13)).unwrap();
    let bs3 = bs.difference(&bs2);
    let s = bs3.to_vec();
    println!("s: {:?}", s);
}

#[test]
fn test_len() {
    println!("z: {}", zorder(255, 255));
    let mut bz = Bitzet::new(2048);
    for v in [
        Vec2::new(1, 1),
        Vec2::new(255, 255),
        Vec2::new(-1, 1),
        Vec2::new(-255, 255),
        Vec2::new(1, -1),
        Vec2::new(255, -255),
        Vec2::new(-1, -1),
        Vec2::new(-255, -255),
    ] {
        bz.insert(v).unwrap();
    }
    assert_eq!(bz.len(), 8);
}

#[test]
fn zorder3_test() {
    assert_eq!(zorder(0, 0), 0);
    assert_eq!(zorder(3, 5), 0b100111);
    assert_eq!(zorder(6, 2), 0b011100);
    assert_eq!(zorder(7, 7), 0b111111);
}

#[test]
fn test_zinv2() {
    assert_eq!(zorder_inverse(0b0), Vec2::new(0, 0));
    assert_eq!(zorder_inverse(0b100110), Vec2::new(0b10, 0b101));
    assert_eq!(zorder_inverse(0b111101), Vec2::new(0b111, 0b110));

    assert_eq!(
        zorder_inverse(0b01010101010101010101010101010101),
        Vec2::new(0b1111111111111111, 0b0)
    );

    assert_eq!(
        zorder_inverse(0b10101010101010101010101010101010),
        Vec2::new(0b0, 0b1111111111111111)
    );
    let v = zorder_inverse(0b111100);
    println!("{:b} {:b}", v.x, v.y);
}

#[test]
fn test1() {
    let mut x = 0u32;
    for _i in 0..10 {
        println!("x: {:b}", x);

        x = (x + 0xaaaaaaab) & 0x55555555;
    }
}

#[test]
fn test_roundtrip_examples() {
    for (x, y) in [(0, 0), (1, 2), (65535, 0), (0, 65535), (65535, 65535), (12345, 54321)] {
        let z = zorder(x, y);
        let v = zorder_inverse(z);
        assert_eq!((v.x as u32, v.y as u32), (x, y));
    }
}

#[test]
fn test_membership() {
    let mut bs = Bitzet::new(128);
    bs.insert(Vec2::new(7, -3)).unwrap();
    assert_eq!(bs.contains(&Vec2::new(7, -3)), Ok(true));
    bs.remove(&Vec2::new(7, -3)).unwrap();
    assert_eq!(bs.contains(&Vec2::new(7, -3)), Ok(false));
}

#[test]
fn test_idempotence() {
    let mut bs = Bitzet::new(128);
    bs.insert(Vec2::new(4, 4)).unwrap();
    bs.insert(Vec2::new(4, 4)).unwrap();
    assert_eq!(bs.len(), 1);
    assert_eq!(bs.to_vec(), vec![Vec2::new(4, 4)]);

    // removing an absent element is a no-op
    bs.remove(&Vec2::new(9, 9)).unwrap();
    assert_eq!(bs.len(), 1);
    assert_eq!(bs.contains(&Vec2::new(4, 4)), Ok(true));
}

#[test]
fn test_difference_law() {
    let mut a = Bitzet::new(128);
    let mut b = Bitzet::new(128);
    for v in [Vec2::new(1, 0), Vec2::new(-2, 5), Vec2::new(3, -4)] {
        a.insert(v).unwrap();
    }
    b.insert(Vec2::new(-2, 5)).unwrap();
    b.insert(Vec2::new(8, 8)).unwrap();

    let d = a.difference(&b);
    assert_eq!(d.contains(&Vec2::new(1, 0)), Ok(true));
    assert_eq!(d.contains(&Vec2::new(3, -4)), Ok(true));
    assert_eq!(d.contains(&Vec2::new(-2, 5)), Ok(false));
    assert_eq!(d.contains(&Vec2::new(8, 8)), Ok(false));
    assert_eq!(d.len(), 2);

    let e = a.difference(&a);
    assert_eq!(e.len(), 0);
    assert_eq!(e.to_vec(), vec![]);
}

#[test]
fn test_count_consistency() {
    let mut bs = Bitzet::new(128);
    assert_eq!(bs.len(), 0);
    bs.insert(Vec2::new(1, 1)).unwrap();
    bs.insert(Vec2::new(1, 1)).unwrap();
    bs.insert(Vec2::new(2, 2)).unwrap();
    bs.insert(Vec2::new(-3, 3)).unwrap();
    assert_eq!(bs.len(), 3);
    bs.remove(&Vec2::new(1, 1)).unwrap();
    assert_eq!(bs.len(), 2);
    bs.remove(&Vec2::new(50, 50)).unwrap();
    assert_eq!(bs.len(), 2);
    assert_eq!(bs.remove(&Vec2::new(100, 100)), Err(Error::CapacityExceeded));
    assert_eq!(bs.len(), 2);
}

#[test]
fn test_iteration_completeness() {
    let coords = [
        Vec2::new(0, 0),
        Vec2::new(5, 3),
        Vec2::new(-1, 7),
        Vec2::new(2, -9),
        Vec2::new(-6, -6),
        Vec2::new(15, 15),
    ];
    let mut bs = Bitzet::new(128);
    for v in coords {
        bs.insert(v).unwrap();
    }
    let out = bs.to_vec();
    assert_eq!(out.len(), coords.len());
    let set: std::collections::HashSet<Vec2> = out.iter().cloned().collect();
    assert_eq!(set.len(), out.len(), "no duplicates");
    for v in coords {
        assert!(set.contains(&v));
        assert_eq!(bs.contains(&v), Ok(true));
    }
}

#[test]
fn test_zorder_traversal_scenario() {
    let mut a = Bitzet::new(128);
    a.insert(Vec2::new(1, 1)).unwrap();
    a.insert(Vec2::new(2, 1)).unwrap();
    a.insert(Vec2::new(3, 1)).unwrap();
    let mut b = Bitzet::new(128);
    b.insert(Vec2::new(2, 1)).unwrap();
    let d = a.difference(&b);
    // Morton order: (1,1) interleaves to 3, (3,1) to 7
    assert_eq!(d.to_vec(), vec![Vec2::new(1, 1), Vec2::new(3, 1)]);
}

#[test]
fn test_out_of_domain() {
    let mut bs = Bitzet::new(128);
    assert_eq!(bs.insert(Vec2::new(70000, 0)), Err(Error::OutOfDomain));
    assert_eq!(bs.insert(Vec2::new(0, -65536)), Err(Error::OutOfDomain));
    assert_eq!(bs.remove(&Vec2::new(-70000, 1)), Err(Error::OutOfDomain));
    assert_eq!(bs.contains(&Vec2::new(1, 66000)), Err(Error::OutOfDomain));
    assert_eq!(bs.get(&Vec2::new(66000, 66000)), Err(Error::OutOfDomain));
    assert_eq!(bs.len(), 0);
}

#[test]
fn test_capacity_exceeded() {
    // one word per quadrant: only Morton indices 0..32 can be stored
    let mut bs = Bitzet::new(1);
    assert_eq!(bs.insert(Vec2::new(100, 100)), Err(Error::CapacityExceeded));
    assert_eq!(bs.contains(&Vec2::new(100, 100)), Err(Error::CapacityExceeded));
    assert_eq!(bs.remove(&Vec2::new(100, 100)), Err(Error::CapacityExceeded));
    assert_eq!(bs.len(), 0);
    // small coordinates still fit
    bs.insert(Vec2::new(1, 1)).unwrap();
    assert_eq!(bs.len(), 1);
    // a failed insert leaves the set unchanged
    assert_eq!(bs.insert(Vec2::new(31, 31)), Err(Error::CapacityExceeded));
    assert_eq!(bs.len(), 1);
}

#[test]
fn test_from_coords() {
    let coords = vec![
        Vec2::new(1, 1),
        Vec2::new(1, 1),
        Vec2::new(-2, 3),
        Vec2::new(70000, 0),
        Vec2::new(100, 100),
    ];
    // capacity 1 word: (100, 100) interleaves beyond it, (70000, 0) is out
    // of the codec's domain, and the duplicate counts once
    let bs = mocca_matrix::bitzet::Bitzet::from_coords(1, &coords);
    assert_eq!(bs.len(), 2);
    assert_eq!(bs.contains(&Vec2::new(1, 1)), Ok(true));
    assert_eq!(bs.contains(&Vec2::new(-2, 3)), Ok(true));
}
