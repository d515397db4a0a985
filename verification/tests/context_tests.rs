use execution_context::context::ExecutionContext;
use execution_context::headers::HttpHeaders;

fn collect_pairs(headers: &HttpHeaders) -> Vec<(String, String)> {
    let mut pairs = Vec::new();
    let mut it = headers.iter();
    while let Some(pair) = it.next() {
        pairs.push(pair);
    }
    pairs
}

#[test]
fn default_shape() {
    let ctx = ExecutionContext::default();
    assert_eq!(ctx.hostname, "");
    assert!(ctx.http_headers.get("User-Agent").unwrap().starts_with("Datadog Agent/"));
    assert_eq!(
        ctx.http_headers.get("Content-Type").unwrap(),
        "application/x-www-form-urlencoded"
    );
    assert_eq!(ctx.http_headers.get("Accept").unwrap(), "text/html, */*");
    assert_eq!(collect_pairs(&ctx.http_headers).len(), 3);
}

#[test]
fn version_embedded_in_user_agent() {
    let ctx = ExecutionContext::with_agent_version("7.55.1");
    assert_eq!(ctx.hostname, "");
    assert_eq!(
        ctx.http_headers.get("User-Agent").unwrap(),
        "Datadog Agent/7.55.1"
    );
    assert_eq!(collect_pairs(&ctx.http_headers).len(), 3);
}

#[test]
fn header_override() {
    let mut ctx = ExecutionContext::with_agent_version("7.55.1");
    let previous = ctx
        .http_headers
        .set("User-Agent", "custom/1.0".to_string());
    assert_eq!(previous, Some("Datadog Agent/7.55.1".to_string()));
    assert_eq!(ctx.http_headers.get("User-Agent").unwrap(), "custom/1.0");
}

#[test]
fn header_removal() {
    let mut ctx = ExecutionContext::default();
    let removed = ctx.http_headers.unset("Accept");
    assert_eq!(removed, Some("text/html, */*".to_string()));
    assert!(ctx.http_headers.get("Accept").is_none());
    let pairs = collect_pairs(&ctx.http_headers);
    assert_eq!(pairs.len(), 2);
    assert!(pairs.iter().all(|(field, _)| field != "Accept"));
}

#[test]
fn successful_hostname_resolution() {
    let lookup: Result<String, String> = Ok("host-a.local".to_string());
    let (ctx, warning) = ExecutionContext::from_host_lookup("7.55.1", lookup);
    assert_eq!(ctx.hostname, "host-a.local");
    assert!(warning.is_none());
    assert_eq!(
        ctx.http_headers.get("User-Agent").unwrap(),
        "Datadog Agent/7.55.1"
    );
    assert_eq!(
        ctx.http_headers.get("Content-Type").unwrap(),
        "application/x-www-form-urlencoded"
    );
    assert_eq!(ctx.http_headers.get("Accept").unwrap(), "text/html, */*");
    assert_eq!(collect_pairs(&ctx.http_headers).len(), 3);
}

#[test]
fn failed_hostname_resolution() {
    let lookup: Result<String, String> = Err("boom".to_string());
    let (ctx, warning) = ExecutionContext::from_host_lookup("7.55.1", lookup);
    assert_eq!(ctx.hostname, "");
    let message = warning.expect("a failed lookup yields a warning");
    assert!(message.contains("boom"));
    assert_eq!(message, "Failed to get hostname: boom");
    assert_eq!(
        ctx.http_headers.get("User-Agent").unwrap(),
        "Datadog Agent/7.55.1"
    );
    assert_eq!(collect_pairs(&ctx.http_headers).len(), 3);
}

#[test]
fn clone_independence() {
    let original = ExecutionContext::default();
    let mut copy = original.clone();
    assert_eq!(copy.hostname, original.hostname);
    copy.http_headers.set("Accept", "application/json".to_string());
    copy.http_headers.unset("Content-Type");
    copy.http_headers.set("X-Extra", "1".to_string());
    assert_eq!(original.http_headers.get("Accept").unwrap(), "text/html, */*");
    assert_eq!(
        original.http_headers.get("Content-Type").unwrap(),
        "application/x-www-form-urlencoded"
    );
    assert!(original.http_headers.get("X-Extra").is_none());
    assert_eq!(collect_pairs(&original.http_headers).len(), 3);
}
