use http_dir::content_encoding::{
    encodings, parse_qvalue, Encoding, PrecompressedVariants, QValue,
};

fn all() -> PrecompressedVariants {
    PrecompressedVariants { gzip: true, deflate: true, br: true }
}

#[test]
fn qvalue_forms() {
    assert_eq!(parse_qvalue("q=1"), Some(QValue(1000)));
    assert_eq!(parse_qvalue("q=0"), Some(QValue(0)));
    assert_eq!(parse_qvalue("q=0.8"), Some(QValue(800)));
    assert_eq!(parse_qvalue("q=0.85"), Some(QValue(850)));
    assert_eq!(parse_qvalue("q=0.851"), Some(QValue(851)));
    assert_eq!(parse_qvalue("Q=1.000"), Some(QValue(1000)));
    assert_eq!(parse_qvalue("q=1."), Some(QValue(1000)));
}

#[test]
fn qvalue_rejects() {
    assert_eq!(parse_qvalue("q=1.5"), None);
    assert_eq!(parse_qvalue("q=2"), None);
    assert_eq!(parse_qvalue("q=0.8511"), None);
    assert_eq!(parse_qvalue("q=,"), None);
    assert_eq!(parse_qvalue("x=1"), None);
    assert_eq!(parse_qvalue(""), None);
}

#[test]
fn header_parsing() {
    let one = "gzip".to_string();
    assert_eq!(encodings(Some(&one), all()), vec![(Encoding::Gzip, QValue(1000))]);

    let weighted = "gzip;q=0.5, br".to_string();
    assert_eq!(
        encodings(Some(&weighted), all()),
        vec![(Encoding::Gzip, QValue(500)), (Encoding::Brotli, QValue(1000))]
    );

    let unknown = "zstd, deflate".to_string();
    assert_eq!(encodings(Some(&unknown), all()), vec![(Encoding::Deflate, QValue(1000))]);

    assert_eq!(encodings(None, all()), vec![]);
}

#[test]
fn policy_filters_encodings() {
    let h = "gzip, br".to_string();
    let gzip_only = PrecompressedVariants { gzip: true, deflate: false, br: false };
    assert_eq!(encodings(Some(&h), gzip_only), vec![(Encoding::Gzip, QValue(1000))]);
}

#[test]
fn whitespace_around_entries_is_trimmed() {
    let h = " br ; q=0.9 ,\tgzip".to_string();
    assert_eq!(
        encodings(Some(&h), all()),
        vec![(Encoding::Brotli, QValue(900)), (Encoding::Gzip, QValue(1000))]
    );
}

#[test]
fn case_insensitive_tokens() {
    let h = "GZip".to_string();
    assert_eq!(encodings(Some(&h), all()), vec![(Encoding::Gzip, QValue(1000))]);
}

#[test]
fn preference_order() {
    let neg = vec![
        (Encoding::Gzip, QValue(1000)),
        (Encoding::Brotli, QValue(1000)),
        (Encoding::Deflate, QValue(1000)),
    ];
    assert_eq!(Encoding::preferred_encoding(&neg), Some(Encoding::Brotli));

    let weighted = vec![(Encoding::Brotli, QValue(500)), (Encoding::Gzip, QValue(900))];
    assert_eq!(Encoding::preferred_encoding(&weighted), Some(Encoding::Gzip));

    let zeroed = vec![(Encoding::Gzip, QValue(0))];
    assert_eq!(Encoding::preferred_encoding(&zeroed), None);

    assert_eq!(Encoding::preferred_encoding(&vec![]), None);
}

#[test]
fn tokens_and_extensions() {
    assert_eq!(Encoding::Gzip.to_str(), "gzip");
    assert_eq!(Encoding::Brotli.to_str(), "br");
    assert_eq!(Encoding::Deflate.to_str(), "deflate");
    assert_eq!(Encoding::Identity.to_str(), "identity");
    assert_eq!(Encoding::Gzip.to_file_extension(), Some(".gz"));
    assert_eq!(Encoding::Brotli.to_file_extension(), Some(".br"));
    assert_eq!(Encoding::Deflate.to_file_extension(), Some(".zz"));
    assert_eq!(Encoding::Identity.to_file_extension(), None);
}
