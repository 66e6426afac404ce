use kakadu_vault::codec::{parse_vault, serialize_vault};
use kakadu_vault::errors::VaultError;
use kakadu_vault::model::{Group, InputSymbol, PasswordData, Record};
use kakadu_vault::store::AppState;

fn sample_record() -> Record {
    Record {
        id: 3,
        pid: 2,
        name: String::from("mail account"),
        login: String::from("user@example.com"),
        password: String::from("p4\"ss\\w0rd"),
        url: String::from("https://example.com/login"),
        login_symbol: InputSymbol::Tab,
        password_symbol: InputSymbol::Enter,
        url_symbol: InputSymbol::NoSymbol,
    }
}

#[test]
fn serialize_fresh_vault_exact_bytes() {
    let state = AppState::new();
    let data = state.password_data.as_ref().unwrap();
    let bytes = serialize_vault(data);
    let expected = "{\"groups\":[{\"id\":1,\"pid\":0,\"name\":\"NewDatabase\"}],\"records\":[]}";
    assert_eq!(bytes, expected.as_bytes().to_vec());
}

#[test]
fn serialize_then_parse_round_trip() {
    let data = PasswordData {
        groups: vec![
            Group { id: 1, pid: 0, name: String::from("NewDatabase") },
            Group { id: 2, pid: 1, name: String::from("Email") },
        ],
        records: vec![sample_record()],
    };
    let bytes = serialize_vault(&data);
    let back = parse_vault(&bytes).unwrap();
    assert_eq!(back, data);
}

#[test]
fn round_trip_with_non_ascii_and_control_characters() {
    let data = PasswordData {
        groups: vec![Group { id: 1, pid: 0, name: String::from("\u{41f}\u{430}\u{440}\u{43e}\u{43b}\u{438}") }],
        records: vec![Record {
            id: 2,
            pid: 1,
            name: String::from("tab\there \u{1F512} done"),
            login: String::from("line\nbreak"),
            password: String::from("\u{0001}\u{001f} edge"),
            url: String::from("a/b\\c\"d"),
            login_symbol: InputSymbol::Space,
            password_symbol: InputSymbol::NoSymbol,
            url_symbol: InputSymbol::Enter,
        }],
    };
    let bytes = serialize_vault(&data);
    let back = parse_vault(&bytes).unwrap();
    assert_eq!(back, data);
}

#[test]
fn parser_accepts_short_escapes_and_hex_escapes() {
    let text = "{\"groups\":[{\"id\":1,\"pid\":0,\"name\":\"a\\n\\t\\\"\\\\\\u0041\\u00e9b\"}],\"records\":[]}";
    let bytes = text.as_bytes().to_vec();
    let parsed = parse_vault(&bytes).unwrap();
    assert_eq!(parsed.groups.len(), 1);
    assert_eq!(parsed.groups[0].name, "a\n\t\"\\A\u{e9}b");
}

#[test]
fn parser_rejects_garbage() {
    let bytes = b"definitely not a vault".to_vec();
    assert_eq!(parse_vault(&bytes), Err(VaultError::FormatError));
}

#[test]
fn parser_rejects_truncated_document() {
    let state = AppState::new();
    let data = state.password_data.as_ref().unwrap();
    let mut bytes = serialize_vault(data);
    bytes.pop();
    assert_eq!(parse_vault(&bytes), Err(VaultError::FormatError));
}

#[test]
fn parser_rejects_trailing_bytes() {
    let state = AppState::new();
    let data = state.password_data.as_ref().unwrap();
    let mut bytes = serialize_vault(data);
    bytes.push(b' ');
    assert_eq!(parse_vault(&bytes), Err(VaultError::FormatError));
}

#[test]
fn parser_rejects_bad_symbol_name() {
    let good = serialize_vault(&PasswordData { groups: vec![], records: vec![sample_record()] });
    let text = String::from_utf8(good).unwrap();
    let bad = text.replace("\"TAB\"", "\"TOB\"");
    assert_eq!(parse_vault(&bad.as_bytes().to_vec()), Err(VaultError::FormatError));
}

#[test]
fn parser_rejects_overflowing_id() {
    let text = "{\"groups\":[{\"id\":4294967296,\"pid\":0,\"name\":\"x\"}],\"records\":[]}";
    assert_eq!(parse_vault(&text.as_bytes().to_vec()), Err(VaultError::FormatError));
}

#[test]
fn output_is_json_that_serde_agrees_with() {
    let data = PasswordData {
        groups: vec![Group { id: 7, pid: 0, name: String::from("quo\"te \u{263a}") }],
        records: vec![sample_record()],
    };
    let bytes = serialize_vault(&data);
    let got: serde_json::Value = serde_json::from_slice(&bytes).unwrap();
    let expected: serde_json::Value = serde_json::from_str(
        "{\"groups\":[{\"id\":7,\"pid\":0,\"name\":\"quo\\\"te \u{263a}\"}],\
         \"records\":[{\"id\":3,\"pid\":2,\"name\":\"mail account\",\
         \"login\":\"user@example.com\",\"password\":\"p4\\\"ss\\\\w0rd\",\
         \"url\":\"https://example.com/login\",\"loginSymbol\":\"TAB\",\
         \"passwordSymbol\":\"ENTER\",\"urlSymbol\":\"NONE\"}]}",
    )
    .unwrap();
    assert_eq!(got, expected);
}

#[test]
fn parser_reads_serde_produced_document() {
    // serde_json writes raw UTF-8 and the short escapes; the reader
    // accepts that form back.
    let text = "{\"groups\":[{\"id\":1,\"pid\":0,\"name\":\"\u{41a}\u{43b}\u{44e}\u{447}\u{438}\"}],\"records\":[]}";
    let parsed = parse_vault(&text.as_bytes().to_vec()).unwrap();
    assert_eq!(parsed.groups[0].name, "\u{41a}\u{43b}\u{44e}\u{447}\u{438}");
}
