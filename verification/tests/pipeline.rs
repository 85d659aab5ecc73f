use ubigeo::command::{FormatCommand, SqlDialect};
use ubigeo::data::embedded_ubigeos_csv;
use ubigeo::format::csv::CsvFormatter;
use ubigeo::format::formatter::{render, Formatter};
use ubigeo::format::json::JsonFormatter;
use ubigeo::format::sql::SqlFormatter;
use ubigeo::processor::{ProcessError, _process_reader};
use ubigeo::text::to_namecase;
use ubigeo::ubigeo::UbigeoMap;

fn sample_map() -> UbigeoMap {
    let mut m = UbigeoMap::new();
    m.insert_row("Lima".to_string(), "Lima".to_string(), "La Molina".to_string());
    m.insert_row("Lima".to_string(), "Lima".to_string(), "Miraflores".to_string());
    m
}

#[test]
fn namecase_trims_and_title_cases() {
    assert_eq!(to_namecase("  lima  "), "Lima");
    assert_eq!(to_namecase("LIMA"), "Lima");
    assert_eq!(to_namecase(""), "");
    assert_eq!(to_namecase("   "), "");
}

#[test]
fn namecase_lowers_non_leading_particles() {
    assert_eq!(to_namecase("san martin de porres"), "San Martin de Porres");
    assert_eq!(to_namecase("BOCA DEL RIO"), "Boca del Rio");
    assert_eq!(to_namecase("de la cruz"), "De La Cruz");
}

#[test]
fn namecase_handles_spanish_letters() {
    assert_eq!(to_namecase("CA\u{d1}ETE"), "Ca\u{f1}ete");
    assert_eq!(to_namecase("\u{f1}a\u{f1}a"), "\u{d1}a\u{f1}a");
    assert_eq!(to_namecase("JOS\u{c9} MAR\u{cd}A"), "Jos\u{e9} Mar\u{ed}a");
}

#[test]
fn namecase_is_idempotent_on_examples() {
    for s in ["San Martin de Porres", "Lima", "Boca del Rio", "De La Cruz", ""] {
        assert_eq!(to_namecase(s), s);
        assert_eq!(to_namecase(&to_namecase(s)), to_namecase(s));
    }
}

#[test]
fn invalid_departments_are_dropped() {
    let input = "desc_dep_inei,desc_prov_inei,desc_ubigeo_inei\n\
                 NA,LIMA,LA MOLINA\n\
                 na,LIMA,MIRAFLORES\n\
                 ,LIMA,SURCO\n\
                 LIMA,LIMA,BARRANCO\n";
    let map = _process_reader(input).unwrap();
    let csv = CsvFormatter.format(&map);
    assert_eq!(csv, "Department,Province,District\nLima,Lima,Barranco\n");
    let json = JsonFormatter.format(&map);
    assert!(!json.contains("Na"));
    assert!(!json.contains("NA"));
}

#[test]
fn duplicate_triples_are_deduplicated() {
    let input = "desc_dep_inei,desc_prov_inei,desc_ubigeo_inei\n\
                 LIMA,LIMA,LA MOLINA\n\
                 LIMA,LIMA,LA MOLINA\n";
    let map = _process_reader(input).unwrap();
    let csv = CsvFormatter.format(&map);
    assert_eq!(csv, "Department,Province,District\nLima,Lima,La Molina\n");
}

#[test]
fn json_round_trips_through_a_real_parser() {
    let input = "desc_dep_inei,desc_prov_inei,desc_ubigeo_inei\n\
                 AMAZONAS,CHACHAPOYAS,CHACHAPOYAS\n\
                 AMAZONAS,CHACHAPOYAS,ASUNCION\n\
                 AMAZONAS,BAGUA,LA PECA\n\
                 LIMA,LIMA,LA MOLINA\n";
    let map = _process_reader(input).unwrap();
    let json = JsonFormatter.format(&map);
    let value: serde_json::Value = serde_json::from_str(&json).unwrap();
    let obj = value.as_object().unwrap();
    assert_eq!(obj.len(), 2);
    let amazonas = obj.get("Amazonas").unwrap().as_object().unwrap();
    assert_eq!(amazonas.len(), 2);
    let chachapoyas = amazonas.get("Chachapoyas").unwrap().as_array().unwrap();
    assert_eq!(chachapoyas.len(), 2);
    assert_eq!(chachapoyas[0].as_str().unwrap(), "Chachapoyas");
    assert_eq!(chachapoyas[1].as_str().unwrap(), "Asuncion");
    let bagua = amazonas.get("Bagua").unwrap().as_array().unwrap();
    assert_eq!(bagua[0].as_str().unwrap(), "La Peca");
    let lima = obj.get("Lima").unwrap().as_object().unwrap();
    let lima_prov = lima.get("Lima").unwrap().as_array().unwrap();
    assert_eq!(lima_prov[0].as_str().unwrap(), "La Molina");
}

#[test]
fn csv_row_count_is_leaves_plus_header() {
    let input = "desc_dep_inei,desc_prov_inei,desc_ubigeo_inei\n\
                 AMAZONAS,CHACHAPOYAS,CHACHAPOYAS\n\
                 AMAZONAS,CHACHAPOYAS,ASUNCION\n\
                 AMAZONAS,BAGUA,LA PECA\n\
                 LIMA,LIMA,LA MOLINA\n\
                 LIMA,LIMA,LA MOLINA\n";
    let map = _process_reader(input).unwrap();
    let csv = CsvFormatter.format(&map);
    let rows: Vec<&str> = csv.lines().collect();
    assert_eq!(rows.len(), 1 + 4);
    assert_eq!(rows[0], "Department,Province,District");
}

#[test]
fn sql_sqlite_matches_expected_script() {
    let map = sample_map();
    let f = SqlFormatter {
        dialect: SqlDialect::Sqlite,
        table_department: "department".to_string(),
        table_province: "province".to_string(),
        table_district: "district".to_string(),
    };
    let sql = f.format(&map);
    let expected = "INSERT INTO department (name) VALUES ('Lima');\n\
         INSERT INTO province (name, department_id) VALUES ('Lima', (SELECT MAX(id) FROM department));\n\
         INSERT INTO district (name, province_id)\n  VALUES\n    \
         ('La Molina', (SELECT MAX(id) FROM province)),\n    \
         ('Miraflores', (SELECT MAX(id) FROM province));\n";
    assert_eq!(sql, expected);
}

#[test]
fn sql_mysql_uses_session_variables() {
    let map = sample_map();
    let f = SqlFormatter {
        dialect: SqlDialect::Mysql,
        table_department: "department".to_string(),
        table_province: "province".to_string(),
        table_district: "district".to_string(),
    };
    let sql = f.format(&map);
    assert_eq!(sql.matches("INSERT INTO department (name) VALUES").count(), 1);
    assert_eq!(sql.matches("SET @dep_id = LAST_INSERT_ID();").count(), 1);
    assert_eq!(sql.matches("SET @prov_id = LAST_INSERT_ID();").count(), 1);
    assert_eq!(sql.matches("('La Molina', @prov_id),").count(), 1);
    assert_eq!(sql.matches("('Miraflores', @prov_id);").count(), 1);
}

#[test]
fn sql_postgres_wraps_one_block() {
    let map = sample_map();
    let f = SqlFormatter {
        dialect: SqlDialect::Postgres,
        table_department: "department".to_string(),
        table_province: "province".to_string(),
        table_district: "district".to_string(),
    };
    let sql = f.format(&map);
    assert!(sql.starts_with("DO $$\nDECLARE\n    d_id integer;\n    p_id integer;\nBEGIN\n"));
    assert!(sql.ends_with("END $$;\n"));
    assert_eq!(sql.matches("RETURNING id INTO d_id;").count(), 1);
    assert_eq!(sql.matches("RETURNING id INTO p_id;").count(), 1);
    assert_eq!(sql.matches("('La Molina', p_id),").count(), 1);
    assert_eq!(sql.matches("('Miraflores', p_id);").count(), 1);
}

#[test]
fn sql_escapes_single_quotes_by_doubling() {
    let mut map = UbigeoMap::new();
    map.insert_row("L'Oro".to_string(), "P'e".to_string(), "D'i".to_string());
    let f = SqlFormatter {
        dialect: SqlDialect::Sqlite,
        table_department: "department".to_string(),
        table_province: "province".to_string(),
        table_district: "district".to_string(),
    };
    let sql = f.format(&map);
    assert!(sql.contains("VALUES ('L''Oro');"));
    assert!(sql.contains("('P''e',"));
    assert!(sql.contains("('D''i',"));
}

#[test]
fn sql_per_department_and_province_counts() {
    let input = "desc_dep_inei,desc_prov_inei,desc_ubigeo_inei\n\
                 AMAZONAS,CHACHAPOYAS,CHACHAPOYAS\n\
                 AMAZONAS,BAGUA,LA PECA\n\
                 LIMA,LIMA,LA MOLINA\n";
    let map = _process_reader(input).unwrap();
    let f = SqlFormatter {
        dialect: SqlDialect::Sqlite,
        table_department: "department".to_string(),
        table_province: "province".to_string(),
        table_district: "district".to_string(),
    };
    let sql = f.format(&map);
    assert_eq!(sql.matches("INSERT INTO department (name) VALUES").count(), 2);
    assert_eq!(sql.matches("INSERT INTO province (name, department_id)").count(), 3);
    assert_eq!(sql.matches("INSERT INTO district (name, province_id)").count(), 3);
}

#[test]
fn csv_quotes_fields_that_need_it() {
    let mut map = UbigeoMap::new();
    map.insert_row("A,B".to_string(), "C\"D".to_string(), "E".to_string());
    let csv = CsvFormatter.format(&map);
    assert_eq!(csv, "Department,Province,District\n\"A,B\",\"C\"\"D\",E\n");
}

#[test]
fn empty_input_yields_empty_outputs() {
    let map = _process_reader("").unwrap();
    assert_eq!(CsvFormatter.format(&map), "Department,Province,District\n");
    assert_eq!(JsonFormatter.format(&map), "{}");
    let f = SqlFormatter {
        dialect: SqlDialect::Mysql,
        table_department: "department".to_string(),
        table_province: "province".to_string(),
        table_district: "district".to_string(),
    };
    assert_eq!(f.format(&map), "");
}

#[test]
fn missing_columns_error() {
    let input = "a,b,c\n1,2,3\n";
    assert_eq!(_process_reader(input).unwrap_err(), ProcessError::MissingColumns);
}

#[test]
fn short_row_error() {
    let input = "desc_dep_inei,desc_prov_inei,desc_ubigeo_inei\nLIMA,LIMA\n";
    assert_eq!(_process_reader(input).unwrap_err(), ProcessError::RowWidth);
}

#[test]
fn unterminated_quote_error() {
    let input = "desc_dep_inei,desc_prov_inei,desc_ubigeo_inei\n\"LIMA,LIMA,X\n";
    assert_eq!(_process_reader(input).unwrap_err(), ProcessError::Syntax);
}

#[test]
fn quoted_fields_and_crlf_are_read() {
    let input =
        "desc_dep_inei,desc_prov_inei,desc_ubigeo_inei\r\n\"LIMA\",\"LI,MA\",\"SAN \"\"X\"\"\"\r\n";
    let map = _process_reader(input).unwrap();
    let csv = CsvFormatter.format(&map);
    assert_eq!(csv, "Department,Province,District\nLima,\"Li,ma\",\"San \"\"x\"\"\"\n");
}

#[test]
fn embedded_dataset_processes_cleanly() {
    let map = _process_reader(embedded_ubigeos_csv()).unwrap();
    let json = JsonFormatter.format(&map);
    assert!(json.contains("\"Amazonas\""));
    assert!(json.contains("\"Ca\u{f1}ete\""));
    assert!(!json.contains("\"Na\""));
    let csv = CsvFormatter.format(&map);
    assert!(csv.contains("Lima,Ca\u{f1}ete,San Vicente de Ca\u{f1}ete"));
}

#[test]
fn example_end_to_end_json_and_sqlite() {
    let input = "desc_dep_inei,desc_prov_inei,desc_ubigeo_inei\n\
                 LIMA,LIMA,LA MOLINA\n\
                 LIMA,LIMA,MIRAFLORES\n";
    let map = _process_reader(input).unwrap();
    let json = JsonFormatter.format(&map);
    let value: serde_json::Value = serde_json::from_str(&json).unwrap();
    let mut expected = serde_json::Map::new();
    let mut lima = serde_json::Map::new();
    lima.insert(
        "Lima".to_string(),
        serde_json::Value::Array(vec![
            serde_json::Value::String("La Molina".to_string()),
            serde_json::Value::String("Miraflores".to_string()),
        ]),
    );
    expected.insert("Lima".to_string(), serde_json::Value::Object(lima));
    assert_eq!(value, serde_json::Value::Object(expected));
    let sql = render(
        &FormatCommand::Sql {
            output: "out.sql".to_string(),
            dialect: SqlDialect::Sqlite,
            table_department: "department".to_string(),
            table_province: "province".to_string(),
            table_district: "district".to_string(),
        },
        &map,
    );
    assert!(sql.contains("INSERT INTO department (name) VALUES ('Lima');\n"));
    assert!(sql.contains(
        "INSERT INTO province (name, department_id) VALUES ('Lima', (SELECT MAX(id) FROM department));\n",
    ));
    assert!(sql.contains(
        "INSERT INTO district (name, province_id)\n  VALUES\n    ('La Molina', (SELECT MAX(id) FROM province)),\n    ('Miraflores', (SELECT MAX(id) FROM province));\n",
    ));
}

#[test]
fn render_dispatches_on_command() {
    let map = sample_map();
    let csv = render(&FormatCommand::Csv { output: "o.csv".to_string() }, &map);
    assert!(csv.starts_with("Department,Province,District\n"));
    let json = render(&FormatCommand::Json { output: "o.json".to_string() }, &map);
    assert!(json.starts_with("{\n  \"Lima\""));
}

#[test]
fn dialect_names_and_default() {
    assert_eq!(SqlDialect::default(), SqlDialect::Postgres);
    assert_eq!(SqlDialect::Postgres.name(), "postgres");
    assert_eq!(SqlDialect::Mysql.name(), "mysql");
    assert_eq!(SqlDialect::Sqlite.name(), "sqlite");
}

#[test]
fn insertion_order_is_first_seen() {
    let input = "desc_dep_inei,desc_prov_inei,desc_ubigeo_inei\n\
                 LIMA,LIMA,MIRAFLORES\n\
                 AMAZONAS,BAGUA,LA PECA\n\
                 LIMA,CALLAO,X\n";
    let map = _process_reader(input).unwrap();
    let csv = CsvFormatter.format(&map);
    assert_eq!(
        csv,
        "Department,Province,District\nLima,Lima,Miraflores\nLima,Callao,X\nAmazonas,Bagua,La Peca\n"
    );
}

#[test]
fn namecase_collapses_internal_whitespace() {
    assert_eq!(to_namecase("LA  \t MOLINA"), "La Molina");
}

#[test]
fn blank_lines_are_skipped_and_last_record_needs_no_newline() {
    let input = "desc_dep_inei,desc_prov_inei,desc_ubigeo_inei\n\nLIMA,LIMA,LA MOLINA\n\n\nLIMA,LIMA,SURCO";
    let map = _process_reader(input).unwrap();
    let csv = CsvFormatter.format(&map);
    assert_eq!(csv, "Department,Province,District\nLima,Lima,La Molina\nLima,Lima,Surco\n");
}

#[test]
fn lone_carriage_returns_end_records() {
    let input = "desc_dep_inei,desc_prov_inei,desc_ubigeo_inei\rLIMA,LIMA,LA MOLINA\r";
    let map = _process_reader(input).unwrap();
    let csv = CsvFormatter.format(&map);
    assert_eq!(csv, "Department,Province,District\nLima,Lima,La Molina\n");
}

#[test]
fn wide_row_error() {
    let input = "desc_dep_inei,desc_prov_inei,desc_ubigeo_inei\nLIMA,LIMA,X,EXTRA\n";
    assert_eq!(_process_reader(input).unwrap_err(), ProcessError::RowWidth);
}

#[test]
fn text_after_closing_quote_is_a_syntax_error() {
    let input = "desc_dep_inei,desc_prov_inei,desc_ubigeo_inei\n\"LIMA\"x,LIMA,X\n";
    assert_eq!(_process_reader(input).unwrap_err(), ProcessError::Syntax);
}

#[test]
fn custom_table_names_are_used_verbatim() {
    let map = sample_map();
    let f = SqlFormatter {
        dialect: SqlDialect::Sqlite,
        table_department: "dep".to_string(),
        table_province: "prov".to_string(),
        table_district: "dist".to_string(),
    };
    let sql = f.format(&map);
    assert!(sql.contains("INSERT INTO dep (name) VALUES ('Lima');"));
    assert!(sql.contains("INSERT INTO prov (name, dep_id) VALUES"));
    assert!(sql.contains("INSERT INTO dist (name, prov_id)"));
}
