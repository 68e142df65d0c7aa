use bank::basics::{array_sum, bar, bas, double_int32, double_int64, foo, tuple_sum};
use bank::cat::{Cat, Pet};
use bank::slices::{
    get_pair_mut_ref_elem, get_slice_end_ref_elem, get_slice_mut_ref_elem, split_slice_2_parts,
    split_slice_4_parts,
};

#[test]
fn get_pair_mut_ref_elem_works() {
    let mut test_pair = (1, 2);
    let mut_ref_elem = get_pair_mut_ref_elem(&mut test_pair, true);
    *mut_ref_elem = 3;
    assert_eq!(test_pair, (1, 3));

    let mut_ref_elem = get_pair_mut_ref_elem(&mut test_pair, false);
    *mut_ref_elem = 4;
    assert_eq!(test_pair, (4, 3));
}

#[test]
fn get_slice_mut_ref_elem_works() {
    let mut test_slice = [1, 2, 3, 4, 5, 6];
    let n = test_slice.len();
    for i in 0..n {
        let ref_elem = get_slice_mut_ref_elem(&mut test_slice, i);
        *ref_elem += 1;
    }

    assert_eq!(test_slice, [2, 3, 4, 5, 6, 7]);
}

#[test]
fn get_slice_end_ref_elem_works() {
    let test_slice = [1, 2, 3, 4];
    let len = test_slice.len();
    for n in len - 1..0 {
        let ref_elem = get_slice_end_ref_elem(&test_slice, n);
        assert_eq!(*ref_elem, test_slice[len - n - 1])
    }
}

#[test]
fn split_slice_2_parts_works() {
    let test_slice = [1, 2, 3];
    let expected: [(&[i32], &[i32]); 4] = [
        (&[], &[1, 2, 3]),
        (&[1], &[2, 3]),
        (&[1, 2], &[3]),
        (&[1, 2, 3], &[]),
    ];
    let len = test_slice.len();
    for k in 0..len + 1 {
        let result = split_slice_2_parts(&test_slice, k);
        assert_eq!(result, expected[k]);
    }
}

#[test]
fn split_slice_4_parts_works() {
    let test_slice: [i32; 0] = [];
    let expected: (&[i32], &[i32], &[i32], &[i32]) = (&[], &[], &[], &[]);
    let result = split_slice_4_parts(&test_slice);
    assert_eq!(result, expected);

    let test_slice = [1];
    let expected: (&[i32], &[i32], &[i32], &[i32]) = (&[1], &[], &[], &[]);
    let result = split_slice_4_parts(&test_slice);
    assert_eq!(result, expected);

    let test_slice = [1, 2];
    let expected: (&[i32], &[i32], &[i32], &[i32]) = (&[1], &[2], &[], &[]);
    let result = split_slice_4_parts(&test_slice);
    assert_eq!(result, expected);

    let test_slice = [1, 2, 3];
    let expected: (&[i32], &[i32], &[i32], &[i32]) = (&[1], &[2], &[3], &[]);
    let result = split_slice_4_parts(&test_slice);
    assert_eq!(result, expected);

    let test_slice = [1, 2, 3, 4];
    let expected: (&[i32], &[i32], &[i32], &[i32]) = (&[1], &[2], &[3], &[4]);
    let result = split_slice_4_parts(&test_slice);
    assert_eq!(result, expected);

    let test_slice = [1, 2, 3, 4, 5];
    let expected: (&[i32], &[i32], &[i32], &[i32]) = (&[1, 2], &[3], &[4], &[5]);
    let result = split_slice_4_parts(&test_slice);
    assert_eq!(result, expected);

    let test_slice = [1, 2, 3, 4, 5, 6];
    let expected: (&[i32], &[i32], &[i32], &[i32]) = (&[1, 2], &[3, 4], &[5], &[6]);
    let result = split_slice_4_parts(&test_slice);
    assert_eq!(result, expected);

    let test_slice = [1, 2, 3, 4, 5, 6, 7];
    let expected: (&[i32], &[i32], &[i32], &[i32]) = (&[1, 2], &[3, 4], &[5, 6], &[7]);
    let result = split_slice_4_parts(&test_slice);
    assert_eq!(result, expected);

    let test_slice = [1, 2, 3, 4, 5, 6, 7, 8];
    let expected: (&[i32], &[i32], &[i32], &[i32]) = (&[1, 2], &[3, 4], &[5, 6], &[7, 8]);
    let result = split_slice_4_parts(&test_slice);
    assert_eq!(result, expected);
}

#[test]
fn clone_works() {
    let cat = Cat {
        age: 13,
        name: String::from("Fluffy"),
    };
    let clone_cat = cat.clone();

    assert_eq!(cat, clone_cat);
}

#[test]
fn format_works() {
    let cat = Cat {
        age: 13,
        name: String::from("Fluffy"),
    };
    let formatted = format!("debug = {:?}, display = {}", cat, cat.display_string());

    assert_eq!(
        String::from(
            "debug = Cat { age: 13, name: \"Fluffy\" }, display = Cat(name: Fluffy, age: 13)"
        ),
        formatted
    )
}

#[test]
fn from_pet_works() {
    let pet1 = Pet::Cat(8, String::from("Daisy"));
    let pet2 = Pet::Dog(3, String::from("Toby"));
    let cat1: Result<Cat, String> = Cat::try_from_pet(pet1);
    let cat2: Result<Cat, String> = Cat::try_from_pet(pet2);

    assert_eq!(true, cat1.is_ok());
    assert_eq!(
        Cat {
            age: 8,
            name: String::from("Daisy")
        },
        cat1.unwrap()
    );

    assert_eq!(true, cat2.is_err());
    assert_eq!(
        String::from("can't convert Dog(3, \"Toby\") to Cat struct"),
        cat2.unwrap_err()
    );
}

#[test]
fn add_works() {
    let cat = Cat {
        age: 7,
        name: String::from("Bella"),
    };
    let new_cat = cat.add(3);

    assert_eq!(
        Cat {
            age: 10,
            name: String::from("Bella")
        },
        new_cat
    );

    let mut cat = Cat {
        age: 2,
        name: String::from("Misty"),
    };
    cat.add_assign(1);

    assert_eq!(
        Cat {
            age: 3,
            name: String::from("Misty")
        },
        cat
    );
}

#[test]
fn into_pet_round_trip_works() {
    let cat = Cat {
        age: 5,
        name: String::from("Socks"),
    };
    let pet = cat.into_pet();
    let back = Cat::try_from_pet(pet).unwrap();
    assert_eq!(back.age, 5);
    assert_eq!(back.name, "Socks");
}

#[test]
fn basics_work() {
    assert_eq!(foo(), 3);
    assert_eq!(bar(), "Hello");
    assert_eq!(bas(), [1, 2, 3]);
    assert_eq!(double_int32(10), 20);
    assert_eq!(double_int64(i32::MAX), 2 * i32::MAX as i64);
    assert_eq!(tuple_sum((3, 5)), 8);
    assert_eq!(array_sum([1, 2, 3]), 6);
}
