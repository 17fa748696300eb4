use codesort::Language;
use codesort::LocList;

fn input_text() -> &'static str {
    r#"
trait Foo {}

struct Bar<T>(T);
struct Baz<T>(T);
struct Blee<T>(T);

impl<T> Foo for Blee<T>
where
    T: Copy,
{
    // ...
}

impl<T> Foo for Baz<T>
where
    T: Copy,
{
    // ...
}

impl<T> Foo for Bar<T>
where
    T: Copy,
{
    // ...
}

fn main() {}
"#
}

fn output_text() -> &'static str {
    r#"
fn main() {}

impl<T> Foo for Bar<T>
where
    T: Copy,
{
    // ...
}

impl<T> Foo for Baz<T>
where
    T: Copy,
{
    // ...
}

impl<T> Foo for Blee<T>
where
    T: Copy,
{
    // ...
}

struct Bar<T>(T);
struct Baz<T>(T);
struct Blee<T>(T);

trait Foo {}
"#
}

/// check issue #4 is solved
#[test]
fn test_comma_in_trait_bound() {
    let list = LocList::read_str(input_text(), Language::Rust).unwrap();
    //list.print_debug(" WHOLE ");
    let focused = list.focus_around_line_index(7).unwrap();
    {
        let blocks = focused.clone().focus.into_blocks();
    }
    let sorted_list = focused.sort();
    assert_eq!(sorted_list.to_text(), output_text());
}
