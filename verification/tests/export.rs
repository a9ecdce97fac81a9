use textstats::export::{export_csv, flush_outcome, record_outcome, ExportError};
use textstats::keywords::KeywordDictionary;
use textstats::pattern::WordClass;

fn strings(words: &[&str]) -> Vec<String> {
    words.iter().map(|word| word.to_string()).collect()
}

#[test]
fn export_has_a_header_and_a_row_for_each_entry() {
    let class = WordClass::new().unwrap();
    let dictionary = KeywordDictionary::build(&class, "b a b", true);
    assert_eq!(export_csv(&dictionary).unwrap(), b"Word,Count\nb,2\na,1\n".to_vec());
}

#[test]
fn export_of_an_empty_table_is_the_header() {
    assert_eq!(export_csv(&KeywordDictionary::new()).unwrap(), b"Word,Count\n".to_vec());
}

#[test]
fn export_rows_spell_the_counts() {
    let mut keys = Vec::new();
    for _ in 0..120 {
        keys.push("many".to_string());
    }
    keys.push("once".to_string());
    let dictionary = KeywordDictionary::tally_keys(&keys);
    assert_eq!(
        dictionary.export_rows(),
        vec![
            ("Word".to_string(), "Count".to_string()),
            ("many".to_string(), "120".to_string()),
            ("once".to_string(), "1".to_string()),
        ]
    );
    assert_eq!(export_csv(&dictionary).unwrap(), b"Word,Count\nmany,120\nonce,1\n".to_vec());
}

#[test]
fn export_quotes_what_needs_quotes() {
    let dictionary =
        KeywordDictionary::tally_keys(&strings(&["a,b", "say \"hi\"", "a,b", "two\nlines", ""]));
    assert_eq!(
        String::from_utf8(export_csv(&dictionary).unwrap()).unwrap(),
        "Word,Count\n\"a,b\",2\n\"say \"\"hi\"\"\",1\n\"two\nlines\",1\n,1\n"
    );
}

#[test]
fn export_is_what_the_writer_makes_of_the_entries() {
    let class = WordClass::new().unwrap();
    for text in ["", "one", "The cat and the dog and the bird", "\u{e9}t\u{e9} \u{4f60}\u{597d} x_1"] {
        let dictionary = KeywordDictionary::build(&class, text, false);
        let mut writer = csv::Writer::from_writer(Vec::new());
        writer.write_record(["Word", "Count"]).unwrap();
        for entry in dictionary.entries() {
            writer.serialize((entry.word.clone(), entry.count as u32)).unwrap();
        }
        let expected = writer.into_inner().unwrap();
        assert_eq!(export_csv(&dictionary).unwrap(), expected, "{:?}", text);
    }
}

#[test]
fn a_refused_record_fails_the_export() {
    let refused = csv::Error::from(std::io::Error::other("full"));
    assert_eq!(record_outcome(Err(refused)), Err(ExportError::Record));
    assert_eq!(record_outcome(Ok(())), Ok(()));
}

#[test]
fn bytes_that_are_not_handed_out_fail_the_export() {
    assert_eq!(flush_outcome(Err(std::io::Error::other("full"))), Err(ExportError::Flush));
    assert_eq!(flush_outcome(Ok(vec![1, 2, 3])), Ok(vec![1, 2, 3]));
}
