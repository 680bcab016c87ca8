use m7s::api::{ApiGroup, Error, GroupSpec, QueryPath, RootSpec};
use m7s::config::{resolve_context, ConfigError, KubeConfig};
use m7s::ui::{
    event_for_mode, AppEvent, AppMode, AppState, Delta, Key, Modifiers,
};
use m7s::viewport::{FileDims, Viewport};

fn chars(s: &str) -> Vec<char> {
    s.chars().collect()
}

#[test]
fn api_version_v1_is_the_core_group() {
    match ApiGroup::parse_api_version(&chars("v1")) {
        ApiGroup::Core(v) => assert_eq!(v, "v1"),
        ApiGroup::Named(_, _) => panic!("expected the core group"),
    }
}

#[test]
fn api_version_with_one_slash_splits() {
    match ApiGroup::parse_api_version(&chars("apps/v1")) {
        ApiGroup::Named(g, v) => {
            assert_eq!(g, "apps");
            assert_eq!(v, "v1");
        }
        ApiGroup::Core(_) => panic!("expected a named group"),
    }
}

#[test]
fn api_version_without_slash_defaults_to_v1() {
    match ApiGroup::parse_api_version(&chars("batch")) {
        ApiGroup::Named(g, v) => {
            assert_eq!(g, "batch");
            assert_eq!(v, "v1");
        }
        ApiGroup::Core(_) => panic!("expected a named group"),
    }
}

#[test]
fn api_version_with_two_slashes_is_taken_whole() {
    match ApiGroup::parse_api_version(&chars("a/b/c")) {
        ApiGroup::Named(g, v) => {
            assert_eq!(g, "a/b/c");
            assert_eq!(v, "v1");
        }
        ApiGroup::Core(_) => panic!("expected a named group"),
    }
}

#[test]
fn kube_group_names_are_dotted() {
    assert_eq!(
        ApiGroup::Core("v1".to_string()).to_kube_group(),
        "io.k8s.api.core.v1"
    );
    assert_eq!(
        ApiGroup::Named("apps".to_string(), "v1".to_string()).to_kube_group(),
        "io.k8s.api.apps.v1"
    );
}

fn sample_root_spec() -> RootSpec {
    RootSpec {
        paths: vec![
            ("api".to_string(), "/openapi/v3/api".to_string()),
            ("api/v1".to_string(), "/openapi/v3/api/v1".to_string()),
            (
                "apis/apps/v1".to_string(),
                "/openapi/v3/apis/apps/v1".to_string(),
            ),
        ],
    }
}

#[test]
fn group_paths_are_looked_up() {
    let spec = sample_root_spec();
    assert_eq!(
        spec.get_group_path(&ApiGroup::Core("v1".to_string())),
        Some("/openapi/v3/api/v1")
    );
    assert_eq!(
        spec.get_group_path(&ApiGroup::Core(String::new())),
        Some("/openapi/v3/api")
    );
    assert_eq!(
        spec.get_group_path(&ApiGroup::Named("apps".to_string(), "v1".to_string())),
        Some("/openapi/v3/apis/apps/v1")
    );
    assert_eq!(
        spec.get_group_path(&ApiGroup::Named("batch".to_string(), "v1".to_string())),
        None
    );
}

#[test]
fn duplicate_group_paths_resolve_to_the_last() {
    let spec = RootSpec {
        paths: vec![
            ("api/v1".to_string(), "/old".to_string()),
            ("api/v1".to_string(), "/new".to_string()),
        ],
    };
    assert_eq!(
        spec.get_group_path(&ApiGroup::Core("v1".to_string())),
        Some("/new")
    );
}

#[test]
fn query_paths_render_dotted() {
    let path = QueryPath::new("containers")
        .with_parent("spec")
        .with_parent("template");
    assert_eq!(path.text(), "template.spec.containers");
    assert_eq!(QueryPath::new("spec").text(), "spec");
}

#[test]
fn kind_lookup_finds_the_schema() {
    let spec = GroupSpec::new(
        ApiGroup::Core("v1".to_string()),
        Some(vec![
            "io.k8s.api.core.v1.Namespace".to_string(),
            "io.k8s.api.core.v1.Pod".to_string(),
        ]),
    );
    let path = QueryPath::new("containers").with_parent("spec");
    match spec.get_kind_path("Pod", &path) {
        Ok(idx) => assert_eq!(idx, 1),
        Err(e) => panic!("unexpected error: {:?}", e),
    }
}

#[test]
fn kind_lookup_without_components_fails() {
    let spec = GroupSpec::new(ApiGroup::Core("v1".to_string()), None);
    let path = QueryPath::new("spec");
    match spec.get_kind_path("Pod", &path) {
        Err(Error::InvalidComponentsTree) => {}
        other => panic!("unexpected result: {:?}", other),
    }
}

#[test]
fn kind_lookup_reports_the_missing_name() {
    let spec = GroupSpec::new(
        ApiGroup::Named("apps".to_string(), "v1".to_string()),
        Some(vec!["io.k8s.api.apps.v1.Deployment".to_string()]),
    );
    let path = QueryPath::new("spec");
    match spec.get_kind_path("StatefulSet", &path) {
        Err(Error::SpecNotFound(name)) => {
            assert_eq!(name, "io.k8s.api.apps.v1.StatefulSet");
        }
        other => panic!("unexpected result: {:?}", other),
    }
}

#[test]
fn explicit_context_wins() {
    let r = resolve_context(Some("given".to_string()), Some("current".to_string()));
    assert_eq!(r.unwrap(), "given");
}

#[test]
fn current_context_is_the_fallback() {
    let r = resolve_context(None, Some("current".to_string()));
    assert_eq!(r.unwrap(), "current");
}

#[test]
fn missing_context_is_an_error() {
    match resolve_context(None, None) {
        Err(ConfigError::InvalidContext(m)) => {
            assert_eq!(
                m,
                "Ensure a context is provided or selected in your kube configuration"
            );
        }
        other => panic!("unexpected result: {:?}", other),
    }
}

#[test]
fn config_error_messages_name_the_cause() {
    let e = ConfigError::MissingKubeConfig("/home/u/.kube/config".to_string());
    assert_eq!(e.message(), "Kube config file not found: /home/u/.kube/config");
    let e = ConfigError::InvalidContext("ctx".to_string());
    assert_eq!(e.message(), "Invalid context: ctx");
}

#[test]
fn current_context_is_read_from_the_config() {
    let cfg = KubeConfig::new(vec![
        ("apiVersion".to_string(), Some("v1".to_string())),
        ("current-context".to_string(), Some("minikube".to_string())),
    ]);
    assert_eq!(cfg.get_current_context(), Some("minikube".to_string()));
}

#[test]
fn absent_current_context_is_none() {
    let cfg = KubeConfig::new(vec![("apiVersion".to_string(), Some("v1".to_string()))]);
    assert_eq!(cfg.get_current_context(), None);
}

#[test]
fn non_scalar_current_context_is_none() {
    let cfg = KubeConfig::new(vec![("current-context".to_string(), None)]);
    assert_eq!(cfg.get_current_context(), None);
}

#[test]
fn duplicate_current_context_takes_the_last() {
    let cfg = KubeConfig::new(vec![
        ("current-context".to_string(), Some("one".to_string())),
        ("current-context".to_string(), Some("two".to_string())),
    ]);
    assert_eq!(cfg.get_current_context(), Some("two".to_string()));
}

#[test]
fn mode_labels() {
    assert_eq!(AppMode::Normal.display_text(), "NORMAL");
    assert_eq!(AppMode::Input.display_text(), "INPUT");
    assert_eq!(AppMode::Command.display_text(), "COMMAND");
}

const NO_MODS: Modifiers = Modifiers {
    shift: false,
    control: false,
};
const CTRL: Modifiers = Modifiers {
    shift: false,
    control: true,
};
const SHIFT: Modifiers = Modifiers {
    shift: true,
    control: false,
};

#[test]
fn normal_mode_bindings() {
    assert_eq!(
        event_for_mode(&AppMode::Normal, Key::Char('q'), NO_MODS),
        Some(AppEvent::Exit)
    );
    assert_eq!(
        event_for_mode(&AppMode::Normal, Key::Char('l'), CTRL),
        Some(AppEvent::Load)
    );
    assert_eq!(
        event_for_mode(&AppMode::Normal, Key::Char('l'), NO_MODS),
        Some(AppEvent::CursorX(Delta::Inc(1)))
    );
    assert_eq!(
        event_for_mode(&AppMode::Normal, Key::Char('s'), CTRL),
        Some(AppEvent::Write)
    );
    assert_eq!(
        event_for_mode(&AppMode::Normal, Key::Char('J'), SHIFT),
        Some(AppEvent::ScrollY(Delta::Inc(1)))
    );
    assert_eq!(
        event_for_mode(&AppMode::Normal, Key::Up, NO_MODS),
        Some(AppEvent::CursorY(Delta::Dec(1)))
    );
    assert_eq!(
        event_for_mode(&AppMode::Normal, Key::PageUp, SHIFT),
        Some(AppEvent::ScrollX(Delta::Dec(10)))
    );
    assert_eq!(
        event_for_mode(&AppMode::Normal, Key::PageUp, NO_MODS),
        Some(AppEvent::ScrollY(Delta::Dec(10)))
    );
    assert_eq!(event_for_mode(&AppMode::Normal, Key::Char('z'), NO_MODS), None);
}

#[test]
fn input_mode_bindings() {
    assert_eq!(
        event_for_mode(&AppMode::Input, Key::Esc, NO_MODS),
        Some(AppEvent::ChangeMode(AppMode::Normal))
    );
    assert_eq!(
        event_for_mode(&AppMode::Input, Key::Enter, NO_MODS),
        Some(AppEvent::Submit)
    );
    assert_eq!(event_for_mode(&AppMode::Input, Key::Char('q'), NO_MODS), None);
}

#[test]
fn command_mode_binds_nothing() {
    assert_eq!(event_for_mode(&AppMode::Command, Key::Enter, NO_MODS), None);
}

#[test]
fn lifecycle_rejects_double_startup() {
    let mut st = AppState::new();
    assert!(st.begin_run().is_err());
    assert!(st.begin_startup().is_ok());
    assert!(st.begin_run().is_ok());
    assert!(st.begin_startup().is_err());
    st.shutdown();
    assert!(!st.initialized);
}

#[test]
fn app_events_drive_the_state_machine() {
    let mut st = AppState::new();
    assert!(st.handle_app_event(&AppEvent::ChangeMode(AppMode::Input)));
    assert_eq!(st.mode, AppMode::Input);
    assert!(st.handle_app_event(&AppEvent::TerminalResize));
    assert!(st.handle_app_event(&AppEvent::LoadSpec));
    assert_eq!(st.mode, AppMode::Input);
    assert!(!st.handle_app_event(&AppEvent::Submit));
    assert!(!st.quitting);
    assert!(st.handle_app_event(&AppEvent::Exit));
    assert!(st.quitting);
}

fn loaded_viewport() -> Viewport {
    let mut v = Viewport::new();
    v.set_file(Some(FileDims {
        line_count: 10,
        max_width: 40,
    }));
    v.viewport = (5, 20);
    v
}

#[test]
fn cursor_moves_and_window_follows() {
    let mut v = loaded_viewport();
    v.handle_event(&AppEvent::CursorY(Delta::Inc(1)));
    assert_eq!(v.cursor_pos.0, 1);
    assert_eq!(v.vertical_scroll, 0);
    // run off the bottom of the window: the window scrolls after the cursor
    for _ in 0..6 {
        v.handle_event(&AppEvent::CursorY(Delta::Inc(1)));
    }
    assert_eq!(v.cursor_pos.0, 7);
    assert_eq!(v.vertical_scroll, 3);
    assert!(v.cursor_visible());
}

#[test]
fn cursor_is_clamped_to_the_document() {
    let mut v = loaded_viewport();
    v.move_cursor(&Delta::Inc(100));
    assert_eq!(v.cursor_pos.0, 9);
    v.move_cursor(&Delta::Dec(100));
    assert_eq!(v.cursor_pos.0, 0);
}

#[test]
fn invisible_cursor_reanchors_into_the_window() {
    let mut v = loaded_viewport();
    v.vertical_scroll = 5;
    assert!(!v.cursor_visible());
    v.move_cursor(&Delta::Inc(1));
    // entering from above lands on the top visible line
    assert_eq!(v.cursor_pos.0, 5);
    assert!(v.cursor_visible());

    let mut v = loaded_viewport();
    v.cursor_pos.0 = 9;
    v.vertical_scroll = 2;
    v.cursor_pos.0 = 0;
    v.vertical_scroll = 3;
    assert!(!v.cursor_visible());
    v.move_cursor(&Delta::Dec(1));
    // entering from below lands on the bottom visible line
    assert_eq!(v.cursor_pos.0, 7);
}

#[test]
fn unloaded_viewport_ignores_cursor_moves() {
    let mut v = Viewport::new();
    v.move_cursor(&Delta::Inc(3));
    assert_eq!(v.cursor_pos.0, 0);
}

#[test]
fn scrolling_is_clamped_to_the_document() {
    let mut v = loaded_viewport();
    v.handle_event(&AppEvent::ScrollY(Delta::Inc(100)));
    assert_eq!(v.vertical_scroll, 9);
    v.handle_event(&AppEvent::ScrollY(Delta::Dec(3)));
    assert_eq!(v.vertical_scroll, 6);
    v.handle_event(&AppEvent::ScrollX(Delta::Inc(100)));
    assert_eq!(v.horizontal_scroll, 39);
    v.handle_event(&AppEvent::ScrollX(Delta::Dec(100)));
    assert_eq!(v.horizontal_scroll, 0);
}

#[test]
fn scrolling_an_empty_document_stays_at_zero() {
    let mut v = Viewport::new();
    v.scroll(5, 5);
    assert_eq!(v.vertical_scroll, 0);
    assert_eq!(v.horizontal_scroll, 0);
}

#[test]
fn horizontal_cursor_events_pick_the_element() {
    let mut v = loaded_viewport();
    assert!(v.handle_event(&AppEvent::CursorX(Delta::Inc(1))));
    assert_eq!(v.cursor_pos.1, 1);
    assert!(v.handle_event(&AppEvent::CursorX(Delta::Dec(1))));
    assert_eq!(v.cursor_pos.1, 0);
}

#[test]
fn unhandled_events_are_declined() {
    let mut v = loaded_viewport();
    assert!(!v.handle_event(&AppEvent::Exit));
    assert!(v.handle_event(&AppEvent::Load));
}

#[test]
fn delta_to_isize_saturates() {
    assert_eq!(Delta::Inc(3).to_isize(), 3);
    assert_eq!(Delta::Dec(3).to_isize(), -3);
    assert_eq!(Delta::Zero.to_isize(), 0);
    assert_eq!(Delta::Inc(usize::MAX).to_isize(), isize::MAX);
}

#[test]
fn api_group_display_text() {
    assert_eq!(ApiGroup::Core("v1".to_string()).display_text(), "core/v1");
    assert_eq!(
        ApiGroup::Named("apps".to_string(), "v1".to_string()).display_text(),
        "apps/v1"
    );
}

#[test]
fn api_error_messages_name_the_cause() {
    assert_eq!(
        Error::InvalidGroup("core/v9".to_string()).message(),
        "Invalid group path core/v9"
    );
    assert_eq!(
        Error::InvalidComponentsTree.message(),
        "All openapi specs require a components attribute"
    );
    assert_eq!(
        Error::SpecNotFound("x".to_string()).message(),
        "Could not find spec for x"
    );
}

#[test]
fn handle_event_applies_the_cursor_step() {
    let mut v = loaded_viewport();
    let mut w = loaded_viewport();
    assert!(v.handle_event(&AppEvent::CursorY(Delta::Inc(3))));
    w.move_cursor(&Delta::Inc(3));
    assert_eq!(v.cursor_pos, w.cursor_pos);
    assert_eq!(v.vertical_scroll, w.vertical_scroll);
}

#[test]
fn follow_line_scrolls_the_window() {
    let mut v = loaded_viewport();
    v.follow_line(8);
    assert_eq!(v.cursor_pos.0, 8);
    assert_eq!(v.vertical_scroll, 4);
    assert!(v.cursor_visible());
    v.follow_line(1);
    assert_eq!(v.cursor_pos.0, 1);
    assert_eq!(v.vertical_scroll, 1);
    assert!(v.cursor_visible());
}
