use nwn_files::types::{Error as MyError, X2daError, X2daItem, X2daRow};
use nwn_files::x2da::{parse_string, row_from_line, texts_of_groups, X2daFile};

#[derive(Debug, PartialEq)]
pub struct Sample2da {
    pub a_text: Option<String>,
    pub a_u32: Option<u32>,
    pub a_f32: Option<f32>,
}

impl Sample2da {
    pub fn new(a_text: String, a_u32: u32, a_f32: f32) -> Self {
        Sample2da { a_text: Some(a_text), a_u32: Some(a_u32), a_f32: Some(a_f32) }
    }

    pub fn from_line(line: &str) -> Result<Self, X2daError> {
        row_from_line::<Sample2da>(line)
    }
}

impl X2daRow for Sample2da {
    fn size() -> usize {
        3
    }

    fn to_row(&self) -> Vec<Option<X2daItem>> {
        vec![
            self.a_text.clone().map(X2daItem::Text),
            self.a_u32.map(|v| X2daItem::Plain(v.to_string())),
            self.a_f32.map(|v| X2daItem::Plain(format!("{:?}", v))),
        ]
    }

    fn from_strings(mut strings: Vec<Option<String>>) -> Result<Self, X2daError> {
        let a_text = strings.remove(0);
        let a_u32 = strings
            .remove(0)
            .map(|v| v.parse::<u32>())
            .transpose()
            .or(Err(X2daError::InvalidTableItem))?;
        let a_f32 = strings
            .remove(0)
            .map(|v| v.parse::<f32>())
            .transpose()
            .or(Err(X2daError::InvalidTableItem))?;
        Ok(Sample2da { a_text, a_u32, a_f32 })
    }
}

fn x2da_file_string() -> &'static str {
    "2DA V2.0\n\n     Melon              num  numf\n0    \"Cantelope\"        0    3.0         \n1    \"A small melon\"    1    3.141592    \n2    \"Watermelon\"       2    100.1\n\n"
}

fn x2da_sample_rows() -> Vec<Sample2da> {
    vec![
        Sample2da { a_text: Some(String::from("Cantelope")), a_u32: Some(0), a_f32: Some(3.0) },
        Sample2da {
            a_text: Some(String::from("A small melon")),
            a_u32: Some(1),
            a_f32: Some(3.141592),
        },
        Sample2da { a_text: Some(String::from("Watermelon")), a_u32: Some(2), a_f32: Some(100.1) },
    ]
}

#[test]
fn parse_x2da_file_string() {
    let expected_rows = x2da_sample_rows();
    let expected_columns = vec![String::from("Melon"), String::from("num"), String::from("numf")];

    let file_string = x2da_file_string();

    let file = X2daFile::<Sample2da>::parse_from(file_string).unwrap();

    assert_eq!(expected_rows, file.rows);
    assert_eq!(Some(expected_columns), file.columns);
}

#[test]
fn parse_x2da_string() {
    let x2da_string = r#"1    "A small melon"    1    3.141592    "#;

    let expected = Sample2da::new(String::from("A small melon"), 1, 3.141592);

    let row = Sample2da::from_line(x2da_string).unwrap();

    assert_eq!(expected, row);
}

#[test]
fn parse_x2da_string_no_quotes() {
    let x2da_string = r#"0    Cantelope        0    3.0     "#;

    let expected = Sample2da::new(String::from("Cantelope"), 0, 3.0);

    let row = Sample2da::from_line(x2da_string).unwrap();

    assert_eq!(expected, row)
}

#[test]
fn parse_x2da_string_single_space() {
    let x2da_string = r#"0 Cantelope 0 3.0"#;

    let expected = Sample2da::new(String::from("Cantelope"), 0, 3.0);

    let row = Sample2da::from_line(x2da_string).unwrap();

    assert_eq!(expected, row)
}

#[test]
fn parse_x2da_string_with_nulls() {
    let x2da_string = r#"0    ****    ****  3.0"#;

    let expected = Sample2da { a_text: None, a_u32: None, a_f32: Some(3.0) };

    let row = Sample2da::from_line(x2da_string).unwrap();

    assert_eq!(expected, row);
}

#[test]
fn parse_single_line() {
    let x2da_string = r#"1    "A small melon"    1    3.141592    "#;
    let expected = vec![
        String::from("1"),
        String::from("A small melon"),
        String::from("1"),
        String::from("3.141592"),
    ];

    let parsed = parse_string(x2da_string);

    assert_eq!(expected, parsed);
}

#[test]
fn x2da_item_string_contains_quotes() {
    let my_2da_row = Sample2da {
        a_text: Some(String::from("Blah\"Blah\"")),
        a_u32: Some(0),
        a_f32: Some(0.0),
    };

    let row = my_2da_row.to_row();

    assert_eq!(
        X2daError::X2daItemContainsQuotes,
        row[0].as_ref().unwrap().validate().unwrap_err()
    )
}

#[test]
fn x2da_build_invalid_columns_too_long() {
    let cols = vec![
        String::from("blah"),
        String::from("nah"),
        String::from("Cah"),
        String::from("dah"),
    ];

    let e = X2daFile::<Sample2da>::new().set_columns(cols).unwrap_err();

    assert_eq!(X2daError::X2daWrongNumberColumns(3, 4), e);
}

#[test]
fn x2da_build_invalid_columns_characters() {
    let cols = vec![String::from("blah"), String::from("nah"), String::from("Cah3")];

    let e = X2daFile::<Sample2da>::new().set_columns(cols).unwrap_err();

    assert_eq!(X2daError::X2daColumnsOnlyAlphaAndUnderscore, e);
}

#[test]
fn x2da_build_invalid_item() {
    let my_2da_row = Sample2da {
        a_text: Some(String::from("Blah\"Blah\"")),
        a_u32: Some(0),
        a_f32: Some(0.0),
    };

    let e = X2daFile::new().add_row(my_2da_row).unwrap_err();

    assert_eq!(X2daError::X2daItemContainsQuotes, e);
}

#[test]
fn build_without_columns() {
    let mut rows = x2da_sample_rows();

    let e = X2daFile::new()
        .add_row(rows.remove(0))
        .unwrap()
        .add_row(rows.remove(0))
        .unwrap()
        .add_row(rows.remove(0))
        .unwrap()
        .write()
        .unwrap_err();

    match e {
        MyError::X2daError(X2daError::X2daWriteWithoutColumns) => assert!(true),
        _ => assert!(false),
    }
}

#[test]
fn x2da_build_to_string_with_nulls() {
    let expected = "2DA V2.0\n\n     Melon              num     num_float    \n0    \"Cantelope\"        0       3.0          \n1    \"A small melon\"    1       3.141592     \n2    ****               ****    ****         \n";

    let cols = vec![String::from("Melon"), String::from("num"), String::from("num_float")];

    let mut rows = x2da_sample_rows();

    rows[2] = Sample2da { a_text: None, a_u32: None, a_f32: None };

    let s = X2daFile::new()
        .set_columns(cols)
        .unwrap()
        .add_row(rows.remove(0))
        .unwrap()
        .add_row(rows.remove(0))
        .unwrap()
        .add_row(rows.remove(0))
        .unwrap()
        .write()
        .unwrap();

    assert_eq!(expected, s);
}

#[test]
fn x2da_build_to_string() {
    let expected = "2DA V2.0\n\n     Melon              num    num_float    \n0    \"Cantelope\"        0      3.0          \n1    \"A small melon\"    1      3.141592     \n2    \"Watermelon\"       2      100.1        \n";

    let cols = vec![String::from("Melon"), String::from("num"), String::from("num_float")];

    let mut rows = x2da_sample_rows();

    let s = X2daFile::new()
        .set_columns(cols)
        .unwrap()
        .add_row(rows.remove(0))
        .unwrap()
        .add_row(rows.remove(0))
        .unwrap()
        .add_row(rows.remove(0))
        .unwrap()
        .write()
        .unwrap();

    assert_eq!(expected, s);
}

#[test]
fn x2da_row_counts() {
    assert_eq!(
        X2daError::X2daRowNotEnoughValues,
        Sample2da::from_line("0 a 1").unwrap_err()
    );
    assert_eq!(
        X2daError::X2daRowTooManyValues,
        Sample2da::from_line("0 a 1 2.0 extra").unwrap_err()
    );
    assert_eq!(X2daError::InvalidTableItem, Sample2da::from_line("0 a b 2.0").unwrap_err());
}

#[test]
fn x2da_unicode_letters_in_columns() {
    let cols = vec![String::from("caf\u{e9}"), String::from("n_m"), String::from("x")];
    assert!(X2daFile::<Sample2da>::new().set_columns(cols).is_ok());
}

#[test]
fn x2da_parse_too_few_lines() {
    let e = X2daFile::<Sample2da>::parse_from("2DA V2.0\n\n").unwrap_err();
    assert_eq!(MyError::UnexpectedEof, e);
}

#[test]
fn x2da_write_without_header() {
    let mut f = X2daFile::<Sample2da>::new();
    f.set_columns(vec![String::from("a"), String::from("b"), String::from("c")]).unwrap();
    f.header = None;
    assert_eq!(MyError::X2daError(X2daError::X2daWriteWithoutHeader), f.write().unwrap_err());
}

#[test]
fn x2da_spacing_config() {
    let mut f = X2daFile::<Sample2da>::new();
    f.set_columns(vec![String::from("a"), String::from("b"), String::from("c")]).unwrap();
    f.add_row(Sample2da::new(String::from("x"), 7, 1.5)).unwrap();
    let s = f
        .write_with_config(nwn_files::x2da::X2daBuilderConfig { spacing_length: 1 })
        .unwrap();
    assert_eq!("2DA V2.0\n\n  a   b c   \n0 \"x\" 7 1.5 \n", s);
}

#[test]
fn x2da_group_texts() {
    let groups = vec![
        (Some(String::from("a b")), None),
        (None, Some(String::from("1"))),
        (None, None),
        (Some(String::from("")), Some(String::from("x"))),
    ];
    assert_eq!(vec![String::from("a b"), String::from("1"), String::from("")], texts_of_groups(&groups));
}
