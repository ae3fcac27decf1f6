use channels_console::config::{resolve_log_limit, resolve_metrics_port};
use channels_console::http::{parse_request_path, parse_route, Route};

#[test]
fn route_metrics() {
    assert_eq!(parse_route("/metrics"), Route::Metrics);
}

#[test]
fn route_logs_with_id() {
    assert_eq!(parse_route("/logs/7"), Route::Logs("7".to_string()));
    assert_eq!(parse_route("/logs/abc"), Route::Logs("abc".to_string()));
}

#[test]
fn route_unknown_paths() {
    assert_eq!(parse_route("/"), Route::NotFound);
    assert_eq!(parse_route("/logs"), Route::NotFound);
    assert_eq!(parse_route("/logs/"), Route::NotFound);
    assert_eq!(parse_route("/metrics/extra"), Route::NotFound);
    assert_eq!(parse_route("metrics"), Route::NotFound);
}

#[test]
fn request_path_of_get_line() {
    assert_eq!(
        parse_request_path("GET /metrics HTTP/1.1"),
        Some("/metrics".to_string())
    );
    assert_eq!(
        parse_request_path("GET /logs/3 HTTP/1.0"),
        Some("/logs/3".to_string())
    );
}

#[test]
fn request_path_rejects_other_shapes() {
    assert_eq!(parse_request_path("POST /metrics HTTP/1.1"), None);
    assert_eq!(parse_request_path("GET/metrics HTTP/1.1"), None);
    assert_eq!(parse_request_path("GET /metrics"), None);
    assert_eq!(parse_request_path(""), None);
}

#[test]
fn log_limit_resolution() {
    assert_eq!(resolve_log_limit(None), 50);
    assert_eq!(resolve_log_limit(Some("10".to_string())), 10);
    assert_eq!(resolve_log_limit(Some("0".to_string())), 0);
    assert_eq!(resolve_log_limit(Some("abc".to_string())), 50);
    assert_eq!(resolve_log_limit(Some("".to_string())), 50);
}

#[test]
fn metrics_port_resolution() {
    assert_eq!(resolve_metrics_port(None), 6770);
    assert_eq!(resolve_metrics_port(Some("8080".to_string())), 8080);
    assert_eq!(resolve_metrics_port(Some("99999".to_string())), 6770);
    assert_eq!(resolve_metrics_port(Some("port".to_string())), 6770);
}
