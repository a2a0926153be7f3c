use jptok::dispatcher::{
    build_parse_response, build_version_response, decode_request, record_to_json, Request,
    RequestError,
};
use jptok::feature::{field_names, generate_dummy_data, map_token, subfields, split_on, Record};
use jptok::framer::{encode_frame, read_u32, u32_to_le};
use jptok::json::{obj_find, obj_take, str_eq, Json};
use jptok::pipeline::{all_steps, assemble_records, is_blank, split_lines, word_runs};
use jptok::segmenter::{split_words, Category};

fn s(x: &str) -> String {
    x.to_string()
}

fn obj(pairs: Vec<(&str, Json)>) -> Json {
    Json::Obj(pairs.into_iter().map(|(k, v)| (k.to_string(), v)).collect())
}

// --- segmenter ---

#[test]
fn category_classifies_characters() {
    assert_eq!(Category::from(&' '), Category::Whitespace);
    assert_eq!(Category::from(&'\t'), Category::Whitespace);
    assert_eq!(Category::from(&'a'), Category::Word);
    assert_eq!(Category::from(&'語'), Category::Word);
}

#[test]
fn split_words_simple() {
    assert_eq!(split_words("Hello world"), vec![s("Hello"), s(" "), s("world")]);
}

#[test]
fn split_words_concatenation_restores_line() {
    let line = "お気に入り  の\tもの   です";
    let runs = split_words(line);
    let mut joined = String::new();
    for r in &runs {
        joined.push_str(r);
    }
    assert_eq!(joined, line);
    for r in &runs {
        assert!(!r.is_empty());
    }
    for w in runs.windows(2) {
        let c0 = w[0].chars().next().unwrap();
        let c1 = w[1].chars().next().unwrap();
        assert_ne!(Category::from(&c0), Category::from(&c1));
    }
}

#[test]
fn split_words_empty_line() {
    assert_eq!(split_words(""), Vec::<String>::new());
}

#[test]
fn split_words_all_whitespace() {
    assert_eq!(split_words("   "), vec![s("   ")]);
}

#[test]
fn is_blank_cases() {
    assert!(is_blank(""));
    assert!(is_blank(" \t "));
    assert!(!is_blank(" a "));
}

// --- framer ---

#[test]
fn read_u32_little_endian() {
    assert_eq!(read_u32(&[0, 0, 0, 0]), 0);
    assert_eq!(read_u32(&[1, 0, 0, 0]), 1);
    assert_eq!(read_u32(&[0x78, 0x56, 0x34, 0x12]), 0x12345678);
    assert_eq!(read_u32(&[0xff, 0xff, 0xff, 0xff]), u32::MAX);
}

#[test]
fn u32_to_le_round_trip() {
    for n in [0u32, 1, 255, 256, 65535, 65536, 0x12345678, u32::MAX] {
        assert_eq!(read_u32(&u32_to_le(n)), n);
        assert_eq!(u32_to_le(n), n.to_le_bytes());
    }
}

#[test]
fn encode_frame_prefixes_length() {
    let payload: Vec<u8> = b"{\"a\":1}".to_vec();
    let framed = encode_frame(&payload);
    assert_eq!(&framed[0..4], &[7, 0, 0, 0]);
    assert_eq!(&framed[4..], payload.as_slice());
}

#[test]
fn encode_frame_empty_payload() {
    let framed = encode_frame(&Vec::new());
    assert_eq!(framed, vec![0u8, 0, 0, 0]);
}

// --- feature mapper ---

#[test]
fn split_on_keeps_empty_pieces() {
    assert_eq!(split_on("a,b", ','), vec![s("a"), s("b")]);
    assert_eq!(split_on("", ','), vec![s("")]);
    assert_eq!(split_on(",", ','), vec![s(""), s("")]);
    assert_eq!(split_on("a,,b,", ','), vec![s("a"), s(""), s("b"), s("")]);
}

#[test]
fn field_names_fixed_order() {
    let names = field_names();
    let expected = vec![
        "pos",
        "pos2",
        "pos3",
        "pos4",
        "inflection_type",
        "inflection_form",
        "lemma_reading",
        "lemma",
        "expression",
        "reading",
        "expression_base",
        "reading_base",
    ];
    assert_eq!(names, expected.into_iter().map(s).collect::<Vec<String>>());
}

#[test]
fn subfields_comma_then_dash() {
    assert_eq!(
        subfields("名詞,一般,*,*,*,*,あるかた-あるかた"),
        vec![
            s("名詞"),
            s("一般"),
            s("*"),
            s("*"),
            s("*"),
            s("*"),
            s("あるかた"),
            s("あるかた"),
        ]
    );
}

#[test]
fn map_token_binds_names_in_order() {
    let rec = map_token("あるかた", "名詞,一般,*,*,*,*,あるかた-あるかた");
    let expected = Record::Word {
        source: s("あるかた"),
        fields: vec![
            (s("pos"), Some(s("名詞"))),
            (s("pos2"), Some(s("一般"))),
            (s("pos3"), None),
            (s("pos4"), None),
            (s("inflection_type"), None),
            (s("inflection_form"), None),
            (s("lemma_reading"), Some(s("あるかた"))),
            (s("lemma"), Some(s("あるかた"))),
        ],
    };
    assert_eq!(rec, expected);
}

#[test]
fn map_token_discards_extra_subfields() {
    let rec = map_token("x", "a,b,c,d,e,f,g,h,i,j,k,l,m,n");
    match rec {
        Record::Word { source, fields } => {
            assert_eq!(source, s("x"));
            assert_eq!(fields.len(), 12);
            assert_eq!(fields[0], (s("pos"), Some(s("a"))));
            assert_eq!(fields[11], (s("reading_base"), Some(s("l"))));
        }
        _ => panic!(),
    }
}

#[test]
fn generate_dummy_data_keeps_source() {
    assert_eq!(generate_dummy_data("  "), Record::Dummy { source: s("  ") });
}

// --- json helpers ---

#[test]
fn str_eq_compares_contents() {
    assert!(str_eq("abc", "abc"));
    assert!(!str_eq("abc", "abd"));
    assert!(!str_eq("abc", "ab"));
}

#[test]
fn obj_find_and_take() {
    let mut pairs = vec![
        (s("a"), Json::Num(s("1"))),
        (s("b"), Json::Str(s("two"))),
    ];
    assert_eq!(obj_find(&pairs, "b"), Some(&Json::Str(s("two"))));
    assert_eq!(obj_find(&pairs, "c"), None);
    assert_eq!(obj_take(&mut pairs, "a"), Some(Json::Num(s("1"))));
    assert_eq!(pairs.len(), 1);
    assert_eq!(obj_take(&mut pairs, "a"), None);
}

// --- dispatcher ---

#[test]
fn get_version_echoes_sequence_string() {
    let msg = obj(vec![
        ("action", Json::Str(s("get_version"))),
        ("sequence", Json::Str(s("abc"))),
    ]);
    let req = decode_request(msg).unwrap();
    let sequence = match req {
        Request::GetVersion { sequence } => sequence,
        _ => panic!(),
    };
    let resp = build_version_response(sequence);
    let expected = obj(vec![
        ("sequence", Json::Str(s("abc"))),
        ("data", obj(vec![("version", Json::Num(s("1")))])),
    ]);
    assert_eq!(resp, expected);
}

#[test]
fn get_version_echoes_other_sequence_kinds() {
    for seqv in [
        Json::Null,
        Json::Num(s("42")),
        obj(vec![("inner", Json::Bool(true))]),
    ] {
        let msg = obj(vec![
            ("action", Json::Str(s("get_version"))),
            ("sequence", seqv),
        ]);
        let msg2 = match &msg {
            Json::Obj(pairs) => Json::Obj(
                pairs
                    .iter()
                    .map(|(k, v)| (k.clone(), clone_json(v)))
                    .collect(),
            ),
            _ => panic!(),
        };
        let expected_seq = match msg2 {
            Json::Obj(mut p) => p.remove(1).1,
            _ => panic!(),
        };
        let req = decode_request(msg).unwrap();
        match req {
            Request::GetVersion { sequence } => assert_eq!(sequence, expected_seq),
            _ => panic!(),
        }
    }
}

fn clone_json(j: &Json) -> Json {
    match j {
        Json::Null => Json::Null,
        Json::Bool(b) => Json::Bool(*b),
        Json::Num(n) => Json::Num(n.clone()),
        Json::Str(x) => Json::Str(x.clone()),
        Json::Arr(items) => Json::Arr(items.iter().map(clone_json).collect()),
        Json::Obj(pairs) => {
            Json::Obj(pairs.iter().map(|(k, v)| (k.clone(), clone_json(v))).collect())
        }
    }
}

#[test]
fn parse_text_request_extracts_text() {
    let msg = obj(vec![
        ("action", Json::Str(s("parse_text"))),
        ("sequence", Json::Num(s("7"))),
        ("params", obj(vec![("text", Json::Str(s("Hello world")))])),
    ]);
    match decode_request(msg).unwrap() {
        Request::ParseText { sequence, text } => {
            assert_eq!(sequence, Json::Num(s("7")));
            assert_eq!(text, s("Hello world"));
        }
        _ => panic!(),
    }
}

#[test]
fn unknown_action_is_reported() {
    let msg = obj(vec![("action", Json::Str(s("frobnicate")))]);
    assert_eq!(decode_request(msg), Err(RequestError::UnknownAction));
    let msg2 = obj(vec![("sequence", Json::Null)]);
    assert_eq!(decode_request(msg2), Err(RequestError::UnknownAction));
    assert_eq!(decode_request(Json::Null), Err(RequestError::UnknownAction));
}

#[test]
fn parse_text_without_string_text_is_reported() {
    let msg = obj(vec![("action", Json::Str(s("parse_text")))]);
    assert_eq!(decode_request(msg), Err(RequestError::MissingText));
    let msg2 = obj(vec![
        ("action", Json::Str(s("parse_text"))),
        ("params", obj(vec![("text", Json::Num(s("3")))])),
    ]);
    assert_eq!(decode_request(msg2), Err(RequestError::MissingText));
}

#[test]
fn record_to_json_dummy_shape() {
    let j = record_to_json(&Record::Dummy { source: s(" ") });
    let expected = obj(vec![
        ("source", Json::Str(s(" "))),
        ("ipadic", Json::Null),
        ("ipadic-neologd", Json::Null),
        ("unidic-mecab-translate", Json::Null),
    ]);
    assert_eq!(j, expected);
}

#[test]
fn record_to_json_word_shape() {
    let rec = Record::Word {
        source: s("犬"),
        fields: vec![(s("pos"), Some(s("名詞"))), (s("pos2"), None)],
    };
    let j = record_to_json(&rec);
    let expected = obj(vec![
        ("source", Json::Str(s("犬"))),
        ("pos", Json::Str(s("名詞"))),
        ("pos2", Json::Null),
    ]);
    assert_eq!(j, expected);
}

#[test]
fn build_parse_response_wraps_records() {
    let records = vec![Record::Dummy { source: s(" ") }];
    let resp = build_parse_response(Json::Str(s("id")), &records);
    let expected = obj(vec![
        ("sequence", Json::Str(s("id"))),
        (
            "data",
            Json::Arr(vec![obj(vec![
                ("source", Json::Str(s(" "))),
                ("ipadic", Json::Null),
                ("ipadic-neologd", Json::Null),
                ("unidic-mecab-translate", Json::Null),
            ])]),
        ),
    ]);
    assert_eq!(resp, expected);
}

// --- pipeline ---

#[test]
fn split_lines_cases() {
    assert_eq!(split_lines(""), Vec::<String>::new());
    assert_eq!(split_lines("a"), vec![s("a")]);
    assert_eq!(split_lines("a\nb"), vec![s("a"), s("b")]);
    assert_eq!(split_lines("a\n"), vec![s("a")]);
    assert_eq!(split_lines("a\r\nb\r\n"), vec![s("a"), s("b")]);
    assert_eq!(split_lines("a\n\nb"), vec![s("a"), s(""), s("b")]);
}

#[test]
fn steps_and_word_runs() {
    assert_eq!(all_steps("Hello world"), vec![s("Hello"), s(" "), s("world")]);
    assert_eq!(word_runs("Hello world"), vec![s("Hello"), s("world")]);
    assert_eq!(word_runs("a b\nc"), vec![s("a"), s("b"), s("c")]);
    assert_eq!(word_runs("   "), Vec::<String>::new());
    assert_eq!(word_runs(""), Vec::<String>::new());
}

#[test]
fn empty_text_yields_no_records() {
    let records = assemble_records("", &Vec::new());
    assert_eq!(records, Vec::<Record>::new());
}

#[test]
fn whitespace_only_text_yields_one_dummy_record() {
    let records = assemble_records("   ", &Vec::new());
    assert_eq!(records, vec![Record::Dummy { source: s("   ") }]);
}

#[test]
fn hello_world_records_in_order() {
    let analyses = vec![
        vec![(s("Hello"), s("名詞,固有名詞"))],
        vec![(s("world"), s("名詞,一般"))],
    ];
    let records = assemble_records("Hello world", &analyses);
    assert_eq!(records.len(), 3);
    match &records[0] {
        Record::Word { source, .. } => assert_eq!(source, "Hello"),
        _ => panic!(),
    }
    assert_eq!(records[1], Record::Dummy { source: s(" ") });
    match &records[2] {
        Record::Word { source, .. } => assert_eq!(source, "world"),
        _ => panic!(),
    }
}

#[test]
fn lines_keep_their_order_and_sources_hold_no_terminator() {
    let analyses = vec![
        vec![(s("ab"), s("x"))],
        vec![(s("cd"), s("y"))],
        vec![(s("e"), s("z"))],
    ];
    let records = assemble_records("ab\ncd e\t\n", &analyses);
    let sources: Vec<String> = records
        .iter()
        .map(|r| match r {
            Record::Word { source, .. } => source.clone(),
            Record::Dummy { source } => source.clone(),
        })
        .collect();
    assert_eq!(sources, vec![s("ab"), s("cd"), s(" "), s("e"), s("\t")]);
    for src in &sources {
        assert!(!src.contains('\n'));
        assert!(!src.contains('\r'));
    }
}

#[test]
fn multiple_tokens_per_run_stay_in_emission_order() {
    let analyses = vec![vec![
        (s("お"), s("接頭辞")),
        (s("気"), s("名詞")),
        (s("に"), s("助詞")),
    ]];
    let records = assemble_records("お気に", &analyses);
    let sources: Vec<String> = records
        .iter()
        .map(|r| match r {
            Record::Word { source, .. } => source.clone(),
            Record::Dummy { source } => source.clone(),
        })
        .collect();
    assert_eq!(sources, vec![s("お"), s("気"), s("に")]);
}
