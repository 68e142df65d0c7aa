use bank::list::List;

#[test]
fn push_back_words() {
    let mut result = List::<i32>::new();
    result.push_back(1);

    assert_eq!(1, *result.front().unwrap());
    assert_eq!(1, *result.back().unwrap());

    result.push_back(2);

    assert_eq!(1, *result.front().unwrap());
    assert_eq!(2, *result.back().unwrap());

    result.push_back(3);

    assert_eq!(1, *result.front().unwrap());
    assert_eq!(3, *result.back().unwrap());
}

#[test]
fn push_front_words() {
    let mut result = List::<i32>::new();
    result.push_front(1);

    assert_eq!(1, *result.front().unwrap());
    assert_eq!(1, *result.back().unwrap());

    result.push_front(2);

    assert_eq!(2, *result.front().unwrap());
    assert_eq!(1, *result.back().unwrap());

    result.push_front(3);

    assert_eq!(3, *result.front().unwrap());
    assert_eq!(1, *result.back().unwrap());
}

#[test]
fn push_back_works() {
    let mut result = List::<i32>::new();
    result.push_back(1);
    result.push_back(2);
    result.push_back(3);

    assert_eq!("[1, 2, 3]", format!("{:?}", result.to_vec()));
}

#[test]
fn push_front_works() {
    let mut result = List::<i32>::new();
    result.push_front(1);
    result.push_front(2);
    result.push_front(3);

    assert_eq!("[3, 2, 1]", format!("{:?}", result.to_vec()));
}

#[test]
fn push_after_works() {
    let mut result = List::<i32>::new();

    result.push_after(0, -1);

    result.push_back(1);
    result.push_back(2);
    result.push_back(3);
    result.push_front(0);

    assert_eq!("[0, -1, 1, 2, 3]", format!("{:?}", result.to_vec()));

    result.push_after(0, 100);
    result.push_after(0, 101);
    result.push_after(3, 200);
    result.push_after(3, 201);

    result.push_after(6, 300);
    result.push_after(6, 301);

    result.push_after(9, 400);
    result.push_after(9, 401);

    result.push_after(1000, 500);

    assert_eq!(
        "[0, 101, 100, -1, 201, 200, 1, 301, 300, 2, 401, 400, 3, 500]",
        format!("{:?}", result.to_vec())
    );
}

#[test]
fn split_works() {
    let empty = List::<i32>::new();
    let (left, right) = empty.split(0);
    assert_eq!("[]", format!("{:?}", left.to_vec()));
    assert_eq!("[]", format!("{:?}", right.to_vec()));

    let (left, right) = empty.split(1);
    assert_eq!("[]", format!("{:?}", left.to_vec()));
    assert_eq!("[]", format!("{:?}", right.to_vec()));

    let (left, right) = empty.split(100);
    assert_eq!("[]", format!("{:?}", left.to_vec()));
    assert_eq!("[]", format!("{:?}", right.to_vec()));

    let mut one_elem = List::<i32>::new();
    one_elem.push_back(1);
    let (left, right) = one_elem.split(0);
    assert_eq!("[]", format!("{:?}", left.to_vec()));
    assert_eq!("[1]", format!("{:?}", right.to_vec()));

    let (left, right) = one_elem.split(1);
    assert_eq!("[1]", format!("{:?}", left.to_vec()));
    assert_eq!("[]", format!("{:?}", right.to_vec()));

    let (left, right) = one_elem.split(2);
    assert_eq!("[1]", format!("{:?}", left.to_vec()));
    assert_eq!("[]", format!("{:?}", right.to_vec()));

    let (left, right) = one_elem.split(100);
    assert_eq!("[1]", format!("{:?}", left.to_vec()));
    assert_eq!("[]", format!("{:?}", right.to_vec()));

    let mut two_elems = List::<i32>::new();
    two_elems.push_back(1);
    two_elems.push_back(2);
    let (left, right) = two_elems.split(0);
    assert_eq!("[]", format!("{:?}", left.to_vec()));
    assert_eq!("[1, 2]", format!("{:?}", right.to_vec()));

    let (left, right) = two_elems.split(1);
    assert_eq!("[1]", format!("{:?}", left.to_vec()));
    assert_eq!("[2]", format!("{:?}", right.to_vec()));

    let (left, right) = two_elems.split(2);
    assert_eq!("[1, 2]", format!("{:?}", left.to_vec()));
    assert_eq!("[]", format!("{:?}", right.to_vec()));

    let (left, right) = two_elems.split(3);
    assert_eq!("[1, 2]", format!("{:?}", left.to_vec()));
    assert_eq!("[]", format!("{:?}", right.to_vec()));

    let (left, right) = two_elems.split(100);
    assert_eq!("[1, 2]", format!("{:?}", left.to_vec()));
    assert_eq!("[]", format!("{:?}", right.to_vec()));

    let mut three_elems = List::<i32>::new();
    three_elems.push_back(1);
    three_elems.push_back(2);
    three_elems.push_back(3);

    let (left, right) = three_elems.split(0);
    assert_eq!("[]", format!("{:?}", left.to_vec()));
    assert_eq!("[1, 2, 3]", format!("{:?}", right.to_vec()));

    let (left, right) = three_elems.split(1);
    assert_eq!("[1]", format!("{:?}", left.to_vec()));
    assert_eq!("[2, 3]", format!("{:?}", right.to_vec()));

    let (left, right) = three_elems.split(2);
    assert_eq!("[1, 2]", format!("{:?}", left.to_vec()));
    assert_eq!("[3]", format!("{:?}", right.to_vec()));

    let (left, right) = three_elems.split(3);
    assert_eq!("[1, 2, 3]", format!("{:?}", left.to_vec()));
    assert_eq!("[]", format!("{:?}", right.to_vec()));

    let (left, right) = three_elems.split(4);
    assert_eq!("[1, 2, 3]", format!("{:?}", left.to_vec()));
    assert_eq!("[]", format!("{:?}", right.to_vec()));

    let (left, right) = three_elems.split(100);
    assert_eq!("[1, 2, 3]", format!("{:?}", left.to_vec()));
    assert_eq!("[]", format!("{:?}", right.to_vec()));
}

#[test]
fn iter_works() {
    let mut list = List::<i32>::new();
    list.push_back(1);
    list.push_back(2);
    list.push_back(3);

    let mut vec = Vec::<i32>::new();
    for i in list.to_vec() {
        vec.push(i);
    }

    assert_eq!("[1, 2, 3]", format!("{:?}", vec));
}

#[test]
fn set_works() {
    let mut empty = List::<i32>::new();
    empty.set(0, 1);

    assert_eq!("[]", format!("{:?}", empty.to_vec()));

    empty.set(100, 1);

    assert_eq!("[]", format!("{:?}", empty.to_vec()));

    let mut list = List::<i32>::new();
    list.push_back(1);
    list.push_back(2);
    list.push_back(3);

    list.set(0, 100);
    list.set(1, 200);
    list.set(2, 300);
    list.set(3, 400);

    assert_eq!("[100, 200, 300]", format!("{:?}", list.to_vec()));
}
