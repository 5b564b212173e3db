use libcalibre::Author;
use libcalibre::client_utils::combined_author_sort;
use libcalibre::client_utils::gen_book_file_name;
use libcalibre::client_utils::gen_book_folder_name;

fn author_with_sort(name: &str, sort: Option<&str>) -> Author {
    Author {
        id: 1,
        name: name.to_string(),
        sort: sort.map(|s| s.to_string()),
        link: None,
    }
}

#[test]
fn book_folder_name_is_the_decimal_id() {
    assert_eq!(gen_book_folder_name(0), "0");
    assert_eq!(gen_book_folder_name(7), "7");
    assert_eq!(gen_book_folder_name(42), "42");
    assert_eq!(gen_book_folder_name(120), "120");
    assert_eq!(gen_book_folder_name(-7), "-7");
    assert_eq!(gen_book_folder_name(i32::MAX), "2147483647");
    assert_eq!(gen_book_folder_name(i32::MIN), "-2147483648");
}

#[test]
fn combined_author_sort_joins_sort_names() {
    assert_eq!(combined_author_sort(&vec![]), "");
    assert_eq!(
        combined_author_sort(&vec![author_with_sort("Ada Lovelace", Some("Lovelace, Ada"))]),
        "Lovelace, Ada"
    );
    assert_eq!(
        combined_author_sort(&vec![
            author_with_sort("A", Some("A, Sort")),
            author_with_sort("B", None),
            author_with_sort("C", Some("C, Sort")),
        ]),
        "A, Sort & B & C, Sort"
    );
}

#[test]
fn book_file_name_is_transliterated() {
    // Non-ASCII characters are transliterated to ASCII.
    assert_eq!(
        gen_book_file_name(&"Tïtle".to_string(), &"Authör".to_string()),
        "Title - Author"
    );
}

#[test]
fn book_file_name_is_sanitised() {
    // A path separator cannot survive into a file name.
    assert_eq!(gen_book_file_name(&"a/b".to_string(), &"c".to_string()), "a_b - c");
}

#[test]
fn metadata_db_path_joins_root_and_file() {
    assert_eq!(libcalibre::util::metadata_db_path("/lib"), "/lib/metadata.db");
}
