use webapp_wrapper::activate::ActivationPlan;
use webapp_wrapper::activate::ShowCommand;
use webapp_wrapper::activate::WindowInfo;
use webapp_wrapper::activate::plan_activation;
use webapp_wrapper::config::AppConfig;
use webapp_wrapper::config::ColorScheme;
use webapp_wrapper::config::InstancePolicy;
use webapp_wrapper::config::str_ci_eq;

fn config_with(single_instance: &str, prefer: &str, force: &str, minimized: &str) -> AppConfig {
    AppConfig {
        url: String::from("https://example.com"),
        title: String::new(),
        icon: String::new(),
        prefer_dark_mode: String::from(prefer),
        force_dark_mode: String::from(force),
        start_minimized: String::from(minimized),
        single_instance: String::from(single_instance),
    }
}

#[test]
fn instance_mode_recognizes_first_and_last_ignoring_case() {
    for v in ["first", "First", "FIRST", "fIrSt"] {
        assert_eq!(config_with(v, "", "", "").instance_mode(), InstancePolicy::First);
    }
    for v in ["last", "LAST", "Last"] {
        assert_eq!(config_with(v, "", "", "").instance_mode(), InstancePolicy::Last);
    }
    for v in ["", "on", "firsty", "las", "first ", "multi"] {
        assert_eq!(config_with(v, "", "", "").instance_mode(), InstancePolicy::Unlimited);
    }
}

#[test]
fn feature_switches_recognize_on_ignoring_case() {
    assert!(config_with("", "", "on", "").force_dark_enabled());
    assert!(config_with("", "", "ON", "").force_dark_enabled());
    assert!(!config_with("", "", "off", "").force_dark_enabled());
    assert!(!config_with("", "", "", "").force_dark_enabled());
    assert!(config_with("", "", "", "On").start_minimized_enabled());
    assert!(!config_with("", "", "", "no").start_minimized_enabled());
}

#[test]
fn color_scheme_recognizes_dark_and_light() {
    assert_eq!(config_with("", "Dark", "", "").color_scheme(), ColorScheme::Dark);
    assert_eq!(config_with("", "LIGHT", "", "").color_scheme(), ColorScheme::Light);
    assert_eq!(config_with("", "", "", "").color_scheme(), ColorScheme::SystemDefault);
    assert_eq!(config_with("", "default", "", "").color_scheme(), ColorScheme::SystemDefault);
}

#[test]
fn static_title_is_any_nonempty_title() {
    let mut c = config_with("", "", "", "");
    assert!(!c.has_static_title());
    c.title = String::from("My App");
    assert!(c.has_static_title());
}

#[test]
fn case_insensitive_comparison_is_exact_about_content() {
    assert!(str_ci_eq("Abc", "aBC"));
    assert!(str_ci_eq("", ""));
    assert!(!str_ci_eq("abc", "abd"));
    assert!(!str_ci_eq("abc", "abcd"));
    // only ASCII letters fold
    assert!(!str_ci_eq("strasse", "STRASSE2"));
}

#[test]
fn file_names_derive_from_the_executable_stem() {
    assert_eq!(AppConfig::config_file_name("MyApp"), "MyApp.json");
    assert_eq!(AppConfig::window_state_file_name("MyApp"), "MyApp.window.json");
}

fn win(owner_pid: u32, title_len: u32, minimized: bool, visible: bool) -> WindowInfo {
    WindowInfo { owner_pid, title_len, minimized, visible }
}

#[test]
fn activation_picks_the_first_titled_window_of_a_target_process() {
    let windows = vec![
        win(50, 10, false, true),   // not a target process
        win(7, 0, false, true),     // target, but an untitled helper window
        win(9, 12, true, false),    // first real candidate
        win(7, 3, false, true),     // later candidate, must not win
    ];
    let plan = plan_activation(&windows, &vec![7, 9]);
    assert_eq!(plan, Some(ActivationPlan { index: 2, command: ShowCommand::Restore }));
}

#[test]
fn activation_command_matches_the_window_state() {
    let windows = vec![win(7, 5, false, false)];
    let plan = plan_activation(&windows, &vec![7]);
    assert_eq!(plan, Some(ActivationPlan { index: 0, command: ShowCommand::Show }));
    let windows = vec![win(7, 5, false, true)];
    let plan = plan_activation(&windows, &vec![7]);
    assert_eq!(plan, Some(ActivationPlan { index: 0, command: ShowCommand::FocusOnly }));
}

#[test]
fn activation_misses_silently() {
    let windows = vec![win(50, 10, false, true), win(7, 0, false, true)];
    assert_eq!(plan_activation(&windows, &vec![7, 9]), None);
    assert_eq!(plan_activation(&Vec::new(), &vec![7]), None);
    assert_eq!(plan_activation(&windows, &Vec::new()), None);
}
