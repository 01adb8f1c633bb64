use sqlparser::dialect::Dialect;
use sqlparser::parser::Parser;
use tumbor::dialect::{example_sql, TyrDialect};

#[derive(Debug, Default)]
struct Sql(TyrDialect);

impl Dialect for Sql {
    fn is_identifier_start(&self, ch: char) -> bool {
        self.0.is_identifier_start(ch)
    }

    fn is_identifier_part(&self, ch: char) -> bool {
        self.0.is_identifier_part(ch)
    }
}

#[test]
fn it_works() {
    assert!(Parser::parse_sql(&Sql::default(), &example_sql()).is_ok());
}

#[test]
fn the_example_reads_a_data_set_by_its_url() {
    assert_eq!(
        example_sql(),
        "SELECT location name, total_cases, new_cases, total_deaths, new_deaths \
         FROM https://raw.githubusercontent.com/owid/covid-19-data/master/public/data/latest/owid-covid-latest.csv \
         WHERE new_deaths > 10 ORDER BY new_cases DESC LIMIT 2"
    );
}

#[test]
fn an_identifier_starts_with_a_letter_or_an_underscore() {
    let dialect = TyrDialect::default();
    for ch in ['a', 'z', 'A', 'Z', 'm', '_'] {
        assert!(dialect.is_identifier_start(ch));
    }
    for ch in ['0', '9', ':', '/', '?', '&', '=', '-', '.', ' ', '@', '[', '`', '{', 'é'] {
        assert!(!dialect.is_identifier_start(ch));
    }
}

#[test]
fn an_identifier_goes_on_with_what_a_url_holds() {
    let dialect = TyrDialect::default();
    for ch in ['a', 'z', 'A', 'Z', '0', '9', ':', '/', '?', '&', '=', '-', '_', '.'] {
        assert!(dialect.is_identifier_part(ch));
    }
    for ch in [' ', ',', ';', '(', ')', '\'', '"', '%', '#', '@', '[', '`', '{', '+', 'é'] {
        assert!(!dialect.is_identifier_part(ch));
    }
}
