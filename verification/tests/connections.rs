use clashctl::connection::{
    centered_rect, close_dialog, connection_row, connection_row_from, hms, shows_close_dialog,
    Connection, ConnectionCloseState, ConnectionMetadata, ConnectionWithSpeed, DialogColor, Rect,
};
use clashctl::latency::summarize_latency;
use clashctl::schedule::due_requests;

fn conn(destination_ip: &str, chains: Vec<&str>) -> ConnectionWithSpeed {
    ConnectionWithSpeed {
        connection: Connection {
            id: "id".to_owned(),
            metadata: ConnectionMetadata {
                host: "example.com".to_owned(),
                destination_ip: destination_ip.to_owned(),
                destination_port: "443".to_owned(),
                source_ip: "192.168.1.2".to_owned(),
                source_port: "5000".to_owned(),
            },
            upload: 2048,
            download: 512,
            start: "2024-01-01T00:00:00Z".to_owned(),
            chains: chains.into_iter().map(str::to_owned).collect(),
            rule: "MATCH".to_owned(),
        },
        download: None,
        upload: Some(1023),
    }
}

#[test]
fn centered_rect_formula() {
    let area = Rect { x: 10, y: 5, width: 100, height: 40 };
    assert_eq!(
        centered_rect(area, 60, 7),
        Rect { x: 30, y: 21, width: 60, height: 7 }
    );
    // height is capped by the area
    let small = Rect { x: 0, y: 0, width: 10, height: 3 };
    assert_eq!(centered_rect(small, 60, 7), Rect { x: 2, y: 0, width: 6, height: 3 });
    // the product saturates before dividing
    let wide = Rect { x: 0, y: 0, width: 60000, height: 10 };
    assert_eq!(centered_rect(wide, 60, 7).width, 655);
}

#[test]
fn close_dialog_texts() {
    assert!(close_dialog(&ConnectionCloseState::Idle).is_none());
    assert!(!shows_close_dialog(&ConnectionCloseState::Idle));
    let d = close_dialog(&ConnectionCloseState::Confirming { count: 12 }).unwrap();
    assert_eq!(d.title, " Close all connections? ");
    assert_eq!(
        d.content,
        "Close all 12 active connections?\n\n[Y] Confirm    [N] / [Esc] Cancel"
    );
    assert_eq!(d.color, DialogColor::Yellow);
    let d = close_dialog(&ConnectionCloseState::Closing { count: 0 }).unwrap();
    assert_eq!(d.content, "Closing all 0 active connections...");
    assert_eq!(d.color, DialogColor::LightBlue);
    let d = close_dialog(&ConnectionCloseState::Result { count: 105, error: None }).unwrap();
    assert_eq!(d.title, " Connections closed ");
    assert_eq!(d.content, "Closed 105 connections.\n\n[Enter] [Space] [Esc] Dismiss");
    assert_eq!(d.color, DialogColor::Green);
    let state = ConnectionCloseState::Result { count: 3, error: Some("timeout".to_owned()) };
    assert!(shows_close_dialog(&state));
    let d = close_dialog(&state).unwrap();
    assert_eq!(d.title, " Could not close connections ");
    assert_eq!(
        d.content,
        "Could not close 3 connections:\ntimeout\n\n[Enter] [Space] [Esc] Dismiss"
    );
    assert_eq!(d.color, DialogColor::Red);
}

#[test]
fn connection_row_columns() {
    let row = connection_row(&conn("1.2.3.4", vec!["Proxy", "DIRECT"]));
    assert_eq!(row.host, format!("{:45}", "example.com:443"));
    assert_eq!(row.download, format!("{:12}", "512 B"));
    assert_eq!(row.upload, format!("{:12}", "2.0 kiB"));
    assert_eq!(row.download_speed, format!("{:12}", "0 B/s"));
    assert_eq!(row.upload_speed, format!("{:12}", "1023 B/s"));
    assert_eq!(row.rule, format!("{:15}", "MATCH"));
    assert_eq!(row.source, "192.168.1.2:5000 ");
    assert_eq!(row.destination, " 1.2.3.4:5000");
    assert_eq!(row.dash, "\u{2500}".repeat(14));
    assert_eq!(row.chains, "Proxy - DIRECT");
}

#[test]
fn connection_row_unknown_destination_and_long_addresses() {
    let mut c = conn("", vec![]);
    c.connection.metadata.source_ip = "x".repeat(40);
    let row = connection_row_from(&c, "a", "b", "c", "d");
    assert_eq!(row.destination, " ?:5000");
    assert_eq!(row.dash, "\u{2500}");
    assert_eq!(row.chains, "");
    assert_eq!(row.download, format!("{:12}", "a"));
    assert_eq!(row.upload_speed, format!("{:12}", "d/s"));
    // a host longer than its column is kept whole
    c.connection.metadata.host = "h".repeat(50);
    let row = connection_row_from(&c, "a", "b", "c", "d");
    assert_eq!(row.host.len(), 54);
}

#[test]
fn latency_summary_counts_and_averages() {
    let s = summarize_latency(&[Some(100), None, Some(51), None, Some(0)]);
    assert_eq!(s.succeeded, 3);
    assert_eq!(s.failed, 2);
    assert_eq!(s.average_delay, Some(50));
    let s = summarize_latency(&[None, None]);
    assert_eq!(s.succeeded, 0);
    assert_eq!(s.failed, 2);
    assert_eq!(s.average_delay, None);
    let s = summarize_latency(&[]);
    assert_eq!(s.average_delay, None);
}

#[test]
fn elapsed_time_is_hours_minutes_seconds() {
    assert_eq!(hms(0), "0:00:00");
    assert_eq!(hms(59), "0:00:59");
    assert_eq!(hms(3725), "1:02:05");
    assert_eq!(hms(36000 + 600 + 10), "10:10:10");
    assert_eq!(hms(-5), "0:00:00");
}

#[test]
fn requests_follow_their_periods() {
    let all = due_requests(0);
    assert!(all.version && all.connections && all.rules && all.proxies && all.config);
    let r = due_requests(20);
    assert!(r.connections && !r.version && !r.rules && !r.proxies && !r.config);
    let r = due_requests(100);
    assert!(r.connections && r.proxies && !r.version && !r.rules && !r.config);
    let r = due_requests(101);
    assert!(r.rules && !r.connections && !r.proxies && !r.version && !r.config);
    let r = due_requests(102);
    assert!(r.version && !r.connections && !r.proxies && !r.rules && !r.config);
    let r = due_requests(103);
    assert!(r.config && !r.connections && !r.proxies && !r.rules && !r.version);
    let r = due_requests(7);
    assert!(!r.config && !r.connections && !r.proxies && !r.rules && !r.version);
}
