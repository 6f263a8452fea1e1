use book_tools::ownership::{calculate_length, dangle, gives_ownership, takes_and_gives_back};

#[test]
fn strings_move_in_and_out() {
    let s1 = gives_ownership();
    assert_eq!(s1, "yours");
    let s2 = String::from("hello");
    let s3 = takes_and_gives_back(s2);
    assert_eq!(s3, "hello");
}

#[test]
fn length_is_counted_in_bytes() {
    let s = String::from("hello");
    assert_eq!(calculate_length(&s), 5);
    assert_eq!(calculate_length(&String::from("héllo")), 6);
    assert_eq!(s, "hello");
}

#[test]
fn owned_string_is_returned_instead_of_a_dangling_reference() {
    assert_eq!(dangle(), "hello");
}
