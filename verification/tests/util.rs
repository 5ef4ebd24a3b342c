use better_control_panel::eframe::{level_color, Builder, Icon, LogPanel, WindowOptions};
use better_control_panel::command::{Level, LogMessageBuf};
use better_control_panel::log::{clear_global_buffer, init, pop_global_buffer, read_global_buffer,
    try_clear_global_buffer, try_pop_global_buffer, try_read_global_buffer, write_global_buffer};
use better_control_panel::util::auto_install::{Rust, RustProxy};

fn record(text: &str) -> LogMessageBuf {
    LogMessageBuf {
        thread_name: Some("main".to_string()),
        thread_id: None,
        level: Level::Debug,
        message: text.to_string(),
        local_time: 0,
        module: None,
        file: None,
        line: None,
    }
}

#[test]
fn log_buffer_appends_and_pops_in_stack_order() {
    let mut buf = init();
    assert!(read_global_buffer(&buf).is_empty());
    write_global_buffer(&mut buf, record("first"));
    write_global_buffer(&mut buf, record("second"));
    assert_eq!(read_global_buffer(&buf).len(), 2);
    assert_eq!(try_read_global_buffer(&buf).unwrap().len(), 2);
    let popped = pop_global_buffer(&mut buf).unwrap().unwrap();
    assert_eq!(popped.message, "second");
    let popped = try_pop_global_buffer(&mut buf).unwrap().unwrap();
    assert_eq!(popped.message, "first");
    assert_eq!(pop_global_buffer(&mut buf).unwrap(), None);
}

#[test]
fn log_buffer_clears() {
    let mut buf = init();
    write_global_buffer(&mut buf, record("x"));
    assert_eq!(clear_global_buffer(&mut buf), Ok(()));
    assert!(read_global_buffer(&buf).is_empty());
    write_global_buffer(&mut buf, record("y"));
    assert_eq!(try_clear_global_buffer(&mut buf), Ok(()));
    assert!(read_global_buffer(&buf).is_empty());
}

#[test]
fn builder_collects_title_icon_and_options() {
    let b = Builder::new("Better Control Panel".to_string());
    assert_eq!(b.app_name(), "Better Control Panel");
    assert!(b.options().transparent);
    assert!(b.options().icon.is_none());
    let icon = Icon { rgba: vec![0u8; 16], width: 2, height: 2 };
    let b = b.with_icon(Some(icon.clone()));
    assert_eq!(b.options().icon, Some(icon));
    let b = b.with_option(WindowOptions { transparent: false, icon: None });
    assert!(!b.options().transparent);
    assert!(b.options().icon.is_none());
}

#[test]
fn log_rows_are_coloured_by_severity() {
    assert_eq!(level_color(Level::Trace), (255, 0, 255));
    assert_eq!(level_color(Level::Debug), (0, 0, 255));
    assert_eq!(level_color(Level::Info), (255, 255, 255));
    assert_eq!(level_color(Level::Warn), (255, 255, 0));
    assert_eq!(level_color(Level::Error), (255, 0, 0));
}

#[test]
fn log_panel_snapshots_the_buffer() {
    let mut buf = init();
    write_global_buffer(&mut buf, record("shown"));
    let panel = LogPanel::new();
    let rows = panel.rows(&buf);
    assert_eq!(rows.len(), 1);
    assert_eq!(rows[0].message, "shown");
}

#[test]
fn proxy_expands_to_its_two_environment_assignments() {
    let proxy = RustProxy {
        dist_server: "https://mirror.example/rustup".to_string(),
        update_root: "https://mirror.example/rustup/update".to_string(),
    };
    let pairs = proxy.as_env_args();
    assert_eq!(pairs.len(), 2);
    assert_eq!(pairs[0].0, "RUSTUP_DIST_SERVER");
    assert_eq!(pairs[0].1, "https://mirror.example/rustup");
    assert_eq!(pairs[1].0, "RUSTUP_UPDATE_ROOT");
    assert_eq!(pairs[1].1, "https://mirror.example/rustup/update");
    assert_eq!(proxy.clone().into_env_args(), pairs);
}

#[test]
fn rust_install_env_is_empty_without_a_proxy() {
    let rust = Rust::default();
    assert!(rust.proxy.is_none());
    assert!(rust.env_args().is_empty());
    let proxy = RustProxy::default();
    assert_eq!(proxy.dist_server, "");
    assert_eq!(proxy.update_root, "");
    let rust = Rust { proxy: Some(proxy) };
    assert_eq!(rust.env_args().len(), 2);
}
