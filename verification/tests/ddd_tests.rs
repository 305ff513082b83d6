use brasilapi_ddd::ddd::decode_ddd;
use brasilapi_ddd::ddd::decode_ddd_error;
use brasilapi_ddd::ddd::ddd_exists_outcome;
use brasilapi_ddd::ddd::encode_ddd;
use brasilapi_ddd::ddd::encode_ddd_error;
use brasilapi_ddd::ddd::get_ddd_outcome;
use brasilapi_ddd::ddd::Ddd;
use brasilapi_ddd::ddd::DddError;
use brasilapi_ddd::ddd::Errored;
use brasilapi_ddd::ddd::Regiao;
use brasilapi_ddd::ddd_url;

const BODY_61: &str = "{\"state\":\"DF\",\"cities\":[\"BRASILIA\"],\"nome\":null,\"regiao\":{\"id\":5,\"sigla\":\"CO\",\"nome\":\"Centro-Oeste\"}}";

const ERROR_BODY: &str = "{\"message\":\"DDD nao encontrado\",\"name\":\"ddd_error\",\"type\":\"DDD_NOT_FOUND\"}";

#[test]
fn get_ddd_test() {
    let ddd = get_ddd_outcome(200, BODY_61).unwrap();

    assert_eq!(ddd.state, "DF");
}

#[test]
fn get_ddd_error() {
    let ddd = get_ddd_outcome(404, ERROR_BODY);

    assert!(ddd.is_err());
}

#[test]
fn ddd_exists_test() {
    let ddd = ddd_exists_outcome(200, "").unwrap();

    assert!(ddd);
}

#[test]
fn ddd_exists_absent() {
    let ddd = ddd_exists_outcome(404, "").unwrap();

    assert!(!ddd);
}

#[test]
fn url_built_from_base_and_code() {
    let url = ddd_url("https://brasilapi.com.br", "61");
    assert_eq!(url, "https://brasilapi.com.br/api/ddd/v1/61");
}

#[test]
fn error_body_decode() {
    let e = decode_ddd_error("{\"message\":\"m\",\"name\":\"n\",\"type\":\"t\"}").unwrap();
    assert_eq!(e.message, "m");
    assert_eq!(e.name, "n");
    assert_eq!(e.kind, "t");
}

#[test]
fn round_trip_full_record() {
    let d = Ddd {
        state: String::from("DF"),
        cities: vec![String::from("BRASILIA"), String::from("GAMA")],
        nome: Some(String::from("Distrito Federal")),
        regiao: Some(Regiao {
            id: 5,
            sigla: String::from("CO"),
            nome: String::from("Centro-Oeste"),
        }),
    };
    let text = encode_ddd(&d);
    let back = decode_ddd(&text).unwrap();
    assert_eq!(back.state, d.state);
    assert_eq!(back.cities, d.cities);
    assert_eq!(back.nome, d.nome);
    let r = back.regiao.unwrap();
    assert_eq!(r.id, 5);
    assert_eq!(r.sigla, "CO");
    assert_eq!(r.nome, "Centro-Oeste");
}

#[test]
fn round_trip_minimal_record() {
    let d = Ddd { state: String::from("SP"), cities: vec![], nome: None, regiao: None };
    let text = encode_ddd(&d);
    assert_eq!(text, "{\"state\":\"SP\",\"cities\":[],\"nome\":null,\"regiao\":null}");
    let back = decode_ddd(&text).unwrap();
    assert_eq!(back.state, "SP");
    assert!(back.cities.is_empty());
    assert!(back.nome.is_none());
    assert!(back.regiao.is_none());
}

#[test]
fn round_trip_escaped_characters() {
    let d = Ddd {
        state: String::from("S\"P"),
        cities: vec![String::from("A\\B"), String::from("C\nD")],
        nome: None,
        regiao: None,
    };
    let text = encode_ddd(&d);
    let back = decode_ddd(&text).unwrap();
    assert_eq!(back.state, "S\"P");
    assert_eq!(back.cities, vec![String::from("A\\B"), String::from("C\nD")]);
}

#[test]
fn round_trip_error_record() {
    let e = DddError {
        message: String::from("m1"),
        name: String::from("n1"),
        kind: String::from("k1"),
    };
    let text = encode_ddd_error(&e);
    assert_eq!(text, "{\"message\":\"m1\",\"name\":\"n1\",\"type\":\"k1\"}");
    let back = decode_ddd_error(&text).unwrap();
    assert_eq!(back.message, "m1");
    assert_eq!(back.name, "n1");
    assert_eq!(back.kind, "k1");
}

#[test]
fn status_code_kept_in_error() {
    let err = get_ddd_outcome(500, ERROR_BODY).unwrap_err();
    assert_eq!(err.code, 500);
    assert_eq!(err.message, "DDD nao encontrado");
    assert!(matches!(err.error, Errored::NotFound(_)));

    let err = ddd_exists_outcome(503, ERROR_BODY).unwrap_err();
    assert_eq!(err.code, 503);
    assert!(matches!(err.error, Errored::NotFound(_)));
}

#[test]
fn malformed_body_maps_to_unexpected() {
    let err = get_ddd_outcome(200, "not json").unwrap_err();
    assert_eq!(err.code, 200);
    assert_eq!(err.message, "");
    assert!(matches!(err.error, Errored::Unexpected));

    let err = get_ddd_outcome(500, "{\"message\":\"m\"}").unwrap_err();
    assert_eq!(err.code, 500);
    assert!(matches!(err.error, Errored::Unexpected));
}

#[test]
fn unknown_members_are_ignored() {
    let body = "{\"state\":\"RJ\",\"extra\":{\"deep\":[1,2,\"x\"]},\"cities\":[\"RIO\"],\"flag\":true}";
    let d = decode_ddd(body).unwrap();
    assert_eq!(d.state, "RJ");
    assert_eq!(d.cities, vec![String::from("RIO")]);
}

#[test]
fn whitespace_is_tolerated() {
    let body = " {\n \"state\" : \"RJ\" ,\n \"cities\" : [ \"RIO\" , \"NITEROI\" ] } \n";
    let d = decode_ddd(body).unwrap();
    assert_eq!(d.state, "RJ");
    assert_eq!(d.cities.len(), 2);
}

#[test]
fn missing_required_member_fails() {
    assert!(decode_ddd("{\"cities\":[\"RIO\"]}").is_none());
    assert!(decode_ddd("{\"state\":\"RJ\"}").is_none());
    assert!(decode_ddd_error("{\"message\":\"m\",\"name\":\"n\"}").is_none());
}

#[test]
fn duplicate_member_fails() {
    assert!(decode_ddd("{\"state\":\"RJ\",\"state\":\"SP\",\"cities\":[]}").is_none());
}

#[test]
fn trailing_text_fails() {
    assert!(decode_ddd("{\"state\":\"RJ\",\"cities\":[]}x").is_none());
}

#[test]
fn region_id_bounds() {
    let body = "{\"state\":\"X\",\"cities\":[],\"regiao\":{\"id\":-2147483648,\"sigla\":\"s\",\"nome\":\"n\"}}";
    let d = decode_ddd(body).unwrap();
    assert_eq!(d.regiao.unwrap().id, -2147483648);

    let body = "{\"state\":\"X\",\"cities\":[],\"regiao\":{\"id\":2147483648,\"sigla\":\"s\",\"nome\":\"n\"}}";
    assert!(decode_ddd(body).is_none());
}

#[test]
fn encoder_output_is_json_for_other_decoders() {
    let d = Ddd {
        state: String::from("DF"),
        cities: vec![String::from("BRASILIA")],
        nome: Some(String::from("Distrito \"Federal\"")),
        regiao: Some(Regiao { id: 5, sigla: String::from("CO"), nome: String::from("Centro") }),
    };
    let text = encode_ddd(&d);
    let v: serde_json::Value = serde_json::from_str(&text).unwrap();
    assert_eq!(v.get("state").unwrap().as_str(), Some("DF"));
    assert_eq!(v.get("nome").unwrap().as_str(), Some("Distrito \"Federal\""));
    let r = v.get("regiao").unwrap();
    assert_eq!(r.get("id").unwrap().as_i64(), Some(5));
}

#[test]
fn other_decoders_output_is_decoded() {
    let mut m = serde_json::Map::new();
    m.insert(String::from("message"), serde_json::Value::String(String::from("m")));
    m.insert(String::from("name"), serde_json::Value::String(String::from("n")));
    m.insert(String::from("type"), serde_json::Value::String(String::from("t")));
    let text = serde_json::to_string(&serde_json::Value::Object(m)).unwrap();
    let e = decode_ddd_error(&text).unwrap();
    assert_eq!(e.message, "m");
    assert_eq!(e.name, "n");
    assert_eq!(e.kind, "t");
}
