use thumbor::cli::{body_text, parse_kv_pair, parse_url, ArgError, KvPair};

fn pair(k: &str, v: &str) -> Result<KvPair, ArgError> {
    Ok(KvPair { k: k.to_string(), v: v.to_string() })
}

#[test]
fn pair_is_split_at_the_first_equals_sign() {
    assert_eq!(parse_kv_pair("tag_id=0"), pair("tag_id", "0"));
    assert_eq!(parse_kv_pair("a=b"), pair("a", "b"));
    assert_eq!(parse_kv_pair("=b"), pair("", "b"));
    assert_eq!(parse_kv_pair("a="), pair("a", ""));
    assert_eq!(parse_kv_pair("="), pair("", ""));
}

#[test]
fn value_ends_at_a_second_equals_sign() {
    assert_eq!(parse_kv_pair("a=b=c"), pair("a", "b"));
    assert_eq!(parse_kv_pair("a==c"), pair("a", ""));
    assert_eq!(parse_kv_pair("k=v=w=x="), pair("k", "v"));
}

#[test]
fn pair_counts_characters_not_bytes() {
    assert_eq!(parse_kv_pair("名前=値"), pair("名前", "値"));
    assert_eq!(parse_kv_pair("é=ü=ö"), pair("é", "ü"));
}

#[test]
fn pair_without_equals_sign_is_refused() {
    assert_eq!(parse_kv_pair("tag_id"), Err(ArgError::NoValue));
    assert_eq!(parse_kv_pair(""), Err(ArgError::NoValue));
}

#[test]
fn url_is_handed_back_as_it_came() {
    assert_eq!(
        parse_url("http://Example.COM:80/a b?x=1#f"),
        Ok("http://Example.COM:80/a b?x=1#f".to_string())
    );
    assert_eq!(parse_url("https://httpbin.org/post"), Ok("https://httpbin.org/post".to_string()));
}

#[test]
fn what_is_no_url_is_refused() {
    assert_eq!(parse_url("httpbin.org/post"), Err(ArgError::BadUrl));
    assert_eq!(parse_url(""), Err(ArgError::BadUrl));
    assert_eq!(parse_url("http://[::1"), Err(ArgError::BadUrl));
}

#[test]
fn json_body_is_laid_out() {
    assert_eq!(
        body_text(true, "{\"a\":1,\"b\":2}"),
        Ok("{\n  \"a\": 1,\n  \"b\": 2\n}".to_string())
    );
    assert_eq!(
        body_text(true, "{\"empty\":{},\n\n\n\n\n\"one\":[1]}"),
        Ok("{\n  \"empty\": {},\n  \"one\": [\n    1\n  ]\n}".to_string())
    );
}

#[test]
fn other_body_is_shown_as_it_came() {
    assert_eq!(body_text(false, "{\"a\":1,\"b\":2}"), Ok("{\"a\":1,\"b\":2}".to_string()));
    assert_eq!(body_text(false, "<html>\n</html>"), Ok("<html>\n</html>".to_string()));
    assert_eq!(body_text(false, ""), Ok(String::new()));
}
