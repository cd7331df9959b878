use std::collections::HashMap;

use vibrev::address::{external_base_url, RequestHead};
use vibrev::json::{parse_json, to_compact, to_pretty, Fields, JsonValue, Numeral};
use vibrev::outcome::{CallToolResponse, CallToolResult, ContentBlock};
use vibrev::output::{
    capped_result, file_url, output_id, payload_of, store_failed, truncate_value, Capped,
    Compaction, Limits, OutputCache, Prepared, Reply, Truncation, META_KEY,
};

fn json(source: &str) -> JsonValue {
    parse_json(source).expect("a JSON document")
}

fn object(entries: Vec<(&str, JsonValue)>) -> JsonValue {
    let mut fields = Fields::new();
    for (key, value) in entries {
        fields.insert(key.to_owned(), value);
    }
    JsonValue::Object(fields)
}

fn text(value: &str) -> JsonValue {
    JsonValue::Text(value.to_owned())
}

fn at<'a>(value: &'a JsonValue, key: &str) -> &'a JsonValue {
    value.get(key).expect("the key is there")
}

fn text_at<'a>(value: &'a JsonValue, key: &str) -> &'a str {
    at(value, key).as_str().expect("a string")
}

/// Reads a `file://` URL back the way a client does.
fn file_path_of(url: &str) -> Vec<u8> {
    let encoded = url.strip_prefix("file://").expect("a file URL");
    let mut bytes = Vec::new();
    let mut chars = encoded.chars();
    while let Some(ch) = chars.next() {
        if ch == '%' {
            let hex: String = chars.by_ref().take(2).collect();
            bytes.push(u8::from_str_radix(&hex, 16).expect("hex escape"));
        } else {
            bytes.push(ch as u8);
        }
    }
    bytes
}

/// The files that were written, by path.
type Disk = HashMap<Vec<u8>, String>;

fn compact(
    cache: &mut OutputCache,
    disk: &mut Disk,
    value: JsonValue,
    base: Option<&str>,
) -> Prepared {
    match cache.compact(value, base) {
        Compaction::Ready(prepared) => prepared,
        Compaction::Save(caught) => {
            let path = cache.file_for(&caught).expect("a file to write");
            disk.insert(path, caught.contents().to_owned());
            let prepared = cache.publish(caught, base);
            for gone in cache.take_discarded() {
                disk.remove(&gone);
            }
            prepared
        }
    }
}

fn compacted(cache: &mut OutputCache, value: JsonValue, base: Option<&str>) -> Prepared {
    compact(cache, &mut Disk::new(), value, base)
}

/// A path with a space and a non-ASCII character survives the round trip.
#[test]
fn a_file_url_escapes_what_a_json_string_cannot_carry_plainly() {
    let url = file_url("/tmp/vibrev out/输出 1.json".as_bytes());

    assert_eq!(url, "file:///tmp/vibrev%20out/%E8%BE%93%E5%87%BA%201.json");
    assert_eq!(
        file_path_of(&url),
        "/tmp/vibrev out/输出 1.json".as_bytes()
    );
}

fn over_threshold() -> JsonValue {
    object(vec![
        ("code", text(&"x".repeat(Limits::default().max_chars + 1))),
        ("addr", text("0x401000")),
    ])
}

#[test]
fn an_answer_that_fits_is_not_touched() {
    let mut cache = OutputCache::http("http://127.0.0.1:8765");
    let small = || json(r#"{"functions": ["main", "init"]}"#);

    let prepared = compacted(&mut cache, small(), None);

    assert_eq!(prepared.value, small());
    assert!(prepared.truncation.is_none());
    assert_eq!(cache.spills(), 0, "the net was not tripped");
}

#[test]
fn a_large_answer_is_kept_and_fetchable() {
    let mut cache = OutputCache::http("http://127.0.0.1:8765");

    let prepared = compacted(&mut cache, over_threshold(), None);
    let truncation = prepared.truncation.expect("truncation");
    let id = text_at(&truncation.metadata, "output_id");

    assert_eq!(cache.get(id), Some(over_threshold()));
    assert_eq!(
        text_at(&truncation.metadata, "download_url"),
        format!("http://127.0.0.1:8765/output/{id}.json")
    );
    assert_eq!(cache.spills(), 1);
}

/// The preview describes the answer rather than replacing it.
#[test]
fn every_key_survives_and_a_cut_string_says_how_much_was_cut() {
    let mut cache = OutputCache::truncating();
    let limits = Limits::default();

    let prepared = compacted(&mut cache, over_threshold(), None);

    // The short field is untouched, so the preview still validates against the
    // schema the tool advertised.
    assert_eq!(text_at(&prepared.value, "addr"), "0x401000");
    let code = text_at(&prepared.value, "code");
    assert!(code.starts_with(&"x".repeat(limits.preview_string_chars)));
    assert!(
        code.ends_with(&format!("... [{} chars total]", limits.max_chars + 1)),
        "{code}"
    );
}

#[test]
fn a_long_array_keeps_its_head_and_its_entries_keep_their_keys() {
    let limits = Limits::default();
    let functions: Vec<JsonValue> = (0..5_000)
        .map(|i| {
            object(vec![
                ("name", text(&format!("sub_{i:x}"))),
                ("addr", text(&format!("{i:#x}"))),
            ])
        })
        .collect();
    let mut cache = OutputCache::truncating();

    let prepared = compacted(
        &mut cache,
        object(vec![
            ("functions", JsonValue::List(functions)),
            ("total", JsonValue::Numeral(Numeral::from_u64(5_000))),
        ]),
        None,
    );

    let kept = at(&prepared.value, "functions").as_array().expect("array");
    assert_eq!(kept.len(), limits.preview_items);
    assert_eq!(text_at(&kept[0], "name"), "sub_0");
    // The count beside the list is a scalar, so it is still the true one.
    assert_eq!(at(&prepared.value, "total").as_i64(), Some(5_000));
}

#[test]
fn a_spilled_answer_is_written_to_a_private_file() {
    let mut cache = OutputCache::spilling_to_files(b"/tmp/test-engine".to_vec());
    let mut disk = Disk::new();

    let prepared = compact(&mut cache, &mut disk, over_threshold(), None);
    let truncation = prepared.truncation.expect("truncation");
    let path = file_path_of(text_at(&truncation.metadata, "download_url"));
    assert!(path.starts_with(b"/tmp/test-engine/"));

    assert_eq!(json(&disk[&path]), over_threshold());
}

/// The whole point, in one measurement.
#[test]
fn ten_megabytes_do_not_reach_the_wire() {
    let mut cache = OutputCache::spilling_to_files(b"/tmp/test-engine".to_vec());
    let mut disk = Disk::new();

    let prepared = compact(
        &mut cache,
        &mut disk,
        object(vec![
            ("addr", text("0x401000")),
            ("code", text(&"x".repeat(10 * 1024 * 1024))),
        ]),
        None,
    );

    let wire = to_compact(&prepared.value);
    assert!(wire.len() < 2_000, "preview was {} bytes", wire.len());
    let truncation = prepared.truncation.expect("truncation");
    let path = file_path_of(text_at(&truncation.metadata, "download_url"));
    assert!(
        disk[&path].len() > 10_000_000,
        "the full answer was not kept"
    );
}

/// With nowhere to spill, there is nothing to remember.
#[test]
fn a_truncating_cache_hands_out_no_url_and_holds_no_entry() {
    let mut cache = OutputCache::truncating();

    let prepared = compacted(&mut cache, over_threshold(), None);
    let truncation = prepared.truncation.expect("truncation");

    assert_eq!(at(&truncation.metadata, "download_url"), &JsonValue::Null);
    let id = text_at(&truncation.metadata, "output_id");
    assert_eq!(cache.get(id), None);
}

/// A request's own host beats the configured fallback.
#[test]
fn a_request_host_overrides_the_fallback() {
    let mut cache = OutputCache::http("http://127.0.0.1:8765");

    let prepared = compacted(
        &mut cache,
        over_threshold(),
        Some("https://mcp.example.com/ida"),
    );

    let truncation = prepared.truncation.expect("truncation");
    let url = text_at(&truncation.metadata, "download_url");
    assert!(
        url.starts_with("https://mcp.example.com/ida/output/"),
        "{url}"
    );
}

#[test]
fn the_oldest_spill_is_dropped_once_the_cache_is_full() {
    let mut cache = OutputCache::http("http://127.0.0.1:8765").with_limits(Limits {
        max_entries: 2,
        ..Limits::default()
    });

    let mut ids = Vec::new();
    for _ in 0..3 {
        let prepared = compacted(&mut cache, over_threshold(), None);
        let metadata = prepared.truncation.expect("truncation").metadata;
        ids.push(text_at(&metadata, "output_id").to_string());
    }

    assert_eq!(cache.get(&ids[0]), None, "the oldest was evicted");
    assert!(cache.get(&ids[2]).is_some(), "the newest is held");
}

/// A text answer with no structured payload is still measured.
#[test]
fn an_answer_that_is_only_text_is_measured_as_text() {
    let mut cache = OutputCache::truncating();
    let listing = "mov rax, rbx\n".repeat(10_000);
    assert!(listing.chars().count() > cache.limits().max_chars);

    let result = CallToolResult::success(vec![ContentBlock::text(listing)]);

    let prepared = compacted(&mut cache, payload_of(&result), None);
    assert!(
        prepared.truncation.is_some(),
        "prose sailed through the net"
    );
}

/// A readable rendering is measured by what it describes, not by itself.
#[test]
fn a_pretty_rendering_is_measured_by_its_structured_payload() {
    let value = || json(r#"{"addr": "0x401000", "code": "int main(void) {\n  return 0;\n}"}"#);
    let mut result = CallToolResult::success(vec![ContentBlock::text(to_pretty(&value()))]);
    result.structured_content = Some(value());

    assert_eq!(payload_of(&result), value());

    let mut cache = OutputCache::truncating();
    let prepared = compacted(&mut cache, payload_of(&result), None);
    assert!(prepared.truncation.is_none(), "a small answer was caught");
    assert_eq!(prepared.value, value());
}

/// The shortened text is the same bytes, not a different rendering.
#[test]
fn a_capped_text_block_keeps_the_form_the_tool_chose() {
    let limits = Limits::default();
    let pseudocode = "int main(void) {\n    return 0;\n}\n".repeat(5_000);
    // The structured payload, plus `content` carrying the text a reader wants.
    let mut result = CallToolResult::structured(object(vec![("code", text(&pseudocode))]));
    result.content = vec![ContentBlock::text(pseudocode.clone())];
    let truncation = Truncation {
        metadata: json(r#"{"output_truncated": true}"#),
        hint: "Output truncated.".to_string(),
    };

    let capped = capped_result(
        result,
        json(r#"{"code": "int main…"}"#),
        truncation,
        limits,
    );

    let text = capped.content[0].as_text().expect("text");
    // Still C, not an escaped JSON string of C.
    assert!(text.starts_with("int main(void) {\n"), "{}", &text[..40]);
    assert!(text.ends_with(&format!("... [{} chars total]", pseudocode.chars().count())));
    assert_eq!(text.chars().count(), limits.max_chars + 1 + 24);
    assert_eq!(capped.content.len(), 2, "the hint is its own block");
    assert_eq!(
        capped.structured_content,
        Some(json(r#"{"code": "int main…"}"#))
    );
    assert!(capped.meta.expect("meta").contains_key(META_KEY));
}

/// A tool that published no structured content does not acquire one.
#[test]
fn capping_does_not_invent_a_structured_payload() {
    let result = CallToolResult::success(vec![ContentBlock::text("x".repeat(60_000))]);
    let truncation = Truncation {
        metadata: json("{}"),
        hint: "Output truncated.".to_string(),
    };

    let capped = capped_result(result, text("x"), truncation, Limits::default());

    assert_eq!(capped.structured_content, None);
}

fn head(headers: &[(&str, &str)]) -> RequestHead {
    RequestHead {
        headers: headers
            .iter()
            .map(|(name, value)| ((*name).to_owned(), Some((*value).to_owned())))
            .collect(),
        authority: None,
        scheme: None,
    }
}

#[test]
fn a_proxy_is_believed_about_where_this_server_is_reachable() {
    let request = head(&[
        ("host", "127.0.0.1:8765"),
        ("x-forwarded-proto", "https"),
        ("x-forwarded-host", "mcp.example.com"),
        ("x-forwarded-prefix", "/ida/proxy/"),
    ]);

    assert_eq!(
        external_base_url(&request).as_deref(),
        Some("https://mcp.example.com/ida/proxy")
    );
}

/// A header cannot put an arbitrary scheme into a URL handed to a client.
#[test]
fn a_base_url_that_is_not_http_is_refused() {
    for base in ["file:///etc", "javascript:alert(1)", "https://", "nonsense"] {
        let request = head(&[("x-vibrev-external-base", base)]);
        assert_eq!(external_base_url(&request), None, "{base} was accepted");
    }
}

#[test]
fn the_output_route_accepts_only_a_single_json_file_name() {
    assert_eq!(output_id("abc.json"), Some("abc"));
    assert_eq!(output_id("/abc.json"), Some("abc"));
    assert_eq!(output_id("abc"), None);
    assert_eq!(output_id("nested/abc.json"), None);
    assert_eq!(output_id("../../etc/passwd.json"), None);
    assert_eq!(output_id(".json"), None);
}

// ---------------------------------------------------------------------------
// A capped server
// ---------------------------------------------------------------------------

fn large() -> CallToolResult {
    CallToolResult::structured(over_threshold())
}

#[test]
fn a_capped_server_lets_small_answers_through_and_catches_large_ones() {
    let mut capped = Capped::new("server", OutputCache::truncating());
    let small = CallToolResult::structured(json(r#"{"a": 1}"#));
    match capped.call_tool(CallToolResponse::Complete(small), None) {
        Reply::Done(CallToolResponse::Complete(result)) => {
            assert_eq!(result.structured_content, Some(json(r#"{"a": 1}"#)));
            assert!(result.meta.is_none());
        }
        other => panic!("not done: {other:?}"),
    }
    match capped.call_tool(CallToolResponse::Complete(large()), None) {
        Reply::Done(CallToolResponse::Complete(result)) => {
            assert!(result.meta.expect("meta").contains_key(META_KEY));
        }
        other => panic!("not done: {other:?}"),
    }
    assert_eq!(capped.cache().spills(), 1);
    assert_eq!(*capped.inner(), "server");
}

#[test]
fn a_caught_answer_is_finished_once_its_file_is_written() {
    let mut capped = Capped::new((), OutputCache::spilling_to_files(b"/tmp/d".to_vec()));
    match capped.call_tool(CallToolResponse::Complete(large()), None) {
        Reply::Save { result, caught } => {
            let id = caught.id().to_owned();
            assert_eq!(json(caught.contents()), over_threshold());
            let path = capped.cache().file_for(&caught).expect("a file");
            assert_eq!(path, format!("/tmp/d/{id}.json").into_bytes());
            let done = capped.finish(result, caught, None);
            assert!(done.meta.expect("meta").contains_key(META_KEY));
            // The file holds it now, and not the memory.
            assert_eq!(capped.get(&id), None);
            assert!(capped.take_discarded().is_empty());
        }
        other => panic!("nothing to save: {other:?}"),
    }
    assert_eq!(
        capped.cache().directory().map(|d| d.as_slice()),
        Some(b"/tmp/d".as_slice())
    );
}

#[test]
fn what_has_expired_is_gone_and_its_file_with_it() {
    let limits = Limits {
        ttl: 10,
        ..Limits::default()
    };
    let mut cache = OutputCache::spilling_to_files(b"/tmp/d".to_vec()).with_limits(limits);
    let caught = cache
        .measure(over_threshold(), "one".to_owned())
        .expect_err("it is caught");
    cache.publish_at(caught, None, 100);
    assert!(cache.take_discarded().is_empty());
    cache.get_at("one", 109);
    assert!(cache.take_discarded().is_empty());
    cache.get_at("one", 1_000);
    assert_eq!(cache.take_discarded(), [b"/tmp/d/one.json".to_vec()]);
}

#[test]
fn held_answers_are_found_until_they_expire() {
    let limits = Limits {
        ttl: 10,
        ..Limits::default()
    };
    let mut cache = OutputCache::http("http://h/").with_limits(limits);
    let caught = cache
        .measure(over_threshold(), "one".to_owned())
        .expect_err("it is caught");
    cache.publish_at(caught, None, 100);
    assert_eq!(cache.get_at("one", 105), Some(over_threshold()));
    assert_eq!(cache.get_at("two", 105), None);
    assert_eq!(cache.get_at("one", 1_000), None);
}

#[test]
fn trimming_stops_at_its_depth() {
    let limits = Limits {
        preview_depth: 0,
        preview_items: 1,
        ..Limits::default()
    };
    assert_eq!(
        truncate_value(&json("[[1, 2], 3]"), 0, &limits),
        json("[[1, 2]]")
    );
}

#[test]
fn a_failure_to_store_is_told() {
    assert_eq!(
        store_failed("disk full").message,
        "failed to store large tool output: disk full"
    );
}
