use math_core::graph::draw_sparkline;
use math_core::tui::{handle_input, App, AppState, CalculatorMode, InputAction, Key, Theme};

#[test]
fn app_starts_on_main_menu() {
    let app = App::new();
    assert_eq!(app.state, AppState::MainMenu);
    assert_eq!(app.theme, Theme::Dark);
    assert_eq!(app.calculator_mode, CalculatorMode::Linear);
    assert_eq!(app.input_fields, vec![String::new(); 3]);
    assert_eq!(app.current_field, 0);
    assert!(app.calculation_result.is_none());
    assert!(!app.show_steps);
}

#[test]
fn theme_toggles_back_and_forth() {
    let mut app = App::new();
    app.toggle_theme();
    assert_eq!(app.theme, Theme::Light);
    app.toggle_theme();
    assert_eq!(app.theme, Theme::Dark);
}

#[test]
fn reset_clears_inputs_only() {
    let mut app = App::new();
    app.state = AppState::Calculator;
    app.calculator_mode = CalculatorMode::Quadratic;
    app.input_fields[1] = "12".to_string();
    app.current_field = 2;
    app.calculation_result = Some("x = 1".to_string());
    app.solution_steps.push("step".to_string());
    app.show_steps = true;
    app.reset_calculator();
    assert_eq!(app.state, AppState::Calculator);
    assert_eq!(app.calculator_mode, CalculatorMode::Quadratic);
    assert_eq!(app.input_fields, vec![String::new(); 3]);
    assert_eq!(app.current_field, 0);
    assert!(app.calculation_result.is_none());
    assert!(app.solution_steps.is_empty());
    assert!(!app.show_steps);
}

#[test]
fn keys_edit_the_selected_field() {
    let mut app = App::new();
    for c in ['-', '5', '.', '0'] {
        assert_eq!(handle_input(&mut app, Key::Char(c)), InputAction::Stay);
    }
    assert_eq!(app.input_fields[0], "-5.0");
    assert_eq!(handle_input(&mut app, Key::Backspace), InputAction::Stay);
    assert_eq!(app.input_fields[0], "-5.");
    handle_input(&mut app, Key::Tab);
    assert_eq!(app.current_field, 1);
    handle_input(&mut app, Key::Char('7'));
    assert_eq!(app.input_fields[1], "7");
    handle_input(&mut app, Key::Tab);
    handle_input(&mut app, Key::Tab);
    assert_eq!(app.current_field, 0);
    handle_input(&mut app, Key::Char('x'));
    assert_eq!(app.input_fields[0], "-5.");
}

#[test]
fn keys_choose_and_move() {
    let mut app = App::new();
    handle_input(&mut app, Key::Char('3'));
    assert_eq!(app.calculator_mode, CalculatorMode::Geometry);
    assert_eq!(app.input_fields[0], "");
    handle_input(&mut app, Key::Up);
    assert_eq!(app.calculator_index, 0);
    for _ in 0..5 {
        handle_input(&mut app, Key::Char('j'));
    }
    assert_eq!(app.calculator_index, 3);
    handle_input(&mut app, Key::Char('k'));
    assert_eq!(app.calculator_index, 2);
    handle_input(&mut app, Key::Char('s'));
    assert!(app.show_steps);
    assert_eq!(handle_input(&mut app, Key::Enter), InputAction::Calculate);
    assert_eq!(handle_input(&mut app, Key::Esc), InputAction::Leave);
    handle_input(&mut app, Key::Char('9'));
    handle_input(&mut app, Key::Char('c'));
    assert_eq!(app.input_fields[0], "");
}

#[test]
fn sparkline_levels() {
    assert_eq!(draw_sparkline(&[], 5), "");
    assert_eq!(draw_sparkline(&[4, 4, 4], 5), "─────");
    assert_eq!(draw_sparkline(&[0, 100], 10), "▁█");
    assert_eq!(draw_sparkline(&[0, 1, 2, 3, 4, 5, 6, 7], 8), "▁▂▃▄▅▆▇█");
    assert_eq!(draw_sparkline(&[0, 50, 100], 2), "▁▅");
    assert_eq!(draw_sparkline(&[10, 20], 0), "");
}
