//! State of the interactive terminal calculator: screens, theme, the input
//! fields of the calculator screen, and the reaction to a key press.

use vstd::prelude::*;

verus! {

/// The screen on display.
#[derive(Debug, Clone, Copy, PartialEq, Eq, Structural)]
pub enum AppState {
    MainMenu,
    Calculator,
    Dashboard,
    WrongAnswers,
    Settings,
}

/// The calculator shown on the calculator screen.
#[derive(Debug, Clone, Copy, PartialEq, Eq, Structural)]
pub enum CalculatorMode {
    Linear,
    Quadratic,
    Geometry,
    Statistics,
}

/// The colour scheme.
#[derive(Debug, Clone, Copy, PartialEq, Eq, Structural)]
pub enum Theme {
    Dark,
    Light,
}

/// The other colour scheme.
pub open spec fn toggled(t: Theme) -> Theme {
    match t {
        Theme::Dark => Theme::Light,
        Theme::Light => Theme::Dark,
    }
}

/// A key press, as far as the calculator screen tells keys apart.
#[derive(Debug, Clone, Copy, PartialEq, Eq)]
pub enum Key {
    Esc,
    Up,
    Down,
    Tab,
    Backspace,
    Enter,
    Char(char),
    Other,
}

/// What the caller does after a key press on the calculator screen.
#[derive(Debug, Clone, Copy, PartialEq, Eq, Structural)]
pub enum InputAction {
    /// Leave the calculator screen.
    Leave,
    /// Nothing more to do.
    Stay,
    /// Solve the equation in the input fields and store the outcome.
    Calculate,
}

/// The whole state of the terminal application.
pub struct App {
    pub state: AppState,
    pub menu_index: usize,
    pub theme: Theme,
    pub calculator_mode: CalculatorMode,
    pub calculator_index: usize,
    pub input_buffer: String,
    pub input_fields: Vec<String>,
    pub current_field: usize,
    pub calculation_result: Option<String>,
    pub show_steps: bool,
    pub solution_steps: Vec<String>,
    pub dashboard_selected: usize,
    pub wrong_answers_selected: usize,
}

/// The calculator screen's inputs are in their initial state: three empty
/// fields, the first one selected, no result and no steps shown.
pub open spec fn calculator_cleared(a: App) -> bool {
    &&& a.input_buffer@.len() == 0
    &&& a.input_fields@.len() == 3
    &&& forall|i: int| 0 <= i < 3 ==> (#[trigger] a.input_fields@[i])@.len() == 0
    &&& a.current_field == 0
    &&& a.calculation_result is None
    &&& a.solution_steps@.len() == 0
    &&& !a.show_steps
}

/// Everything but the calculator screen's inputs is the same in `a` and `b`.
pub open spec fn same_outside_inputs(a: App, b: App) -> bool {
    &&& a.state == b.state
    &&& a.menu_index == b.menu_index
    &&& a.theme == b.theme
    &&& a.calculator_mode == b.calculator_mode
    &&& a.calculator_index == b.calculator_index
    &&& a.dashboard_selected == b.dashboard_selected
    &&& a.wrong_answers_selected == b.wrong_answers_selected
}

/// `c` may be typed into a numeric input field.
pub open spec fn is_numeric_input_char(c: char) -> bool {
    ('0' <= c && c <= '9') || c == '.' || c == '-'
}

/// Relies on `String::push`: appends one character.
#[verifier::external_body]
pub(crate) fn push_char(s: &mut String, c: char)
    ensures
        final(s)@ == old(s)@.push(c),
{
    s.push(c)
}

/// Relies on `String::pop`: removes and returns the last character, if any.
#[verifier::external_body]
fn pop_char(s: &mut String) -> (r: Option<char>)
    ensures
        old(s)@.len() == 0 ==> r is None && final(s)@ == old(s)@,
        old(s)@.len() > 0 ==> r == Some(old(s)@.last()) && final(s)@ == old(s)@.drop_last(),
{
    s.pop()
}

/// Three empty input fields.
fn empty_fields() -> (r: Vec<String>)
    ensures
        r@.len() == 3,
        forall|i: int| 0 <= i < 3 ==> (#[trigger] r@[i])@.len() == 0,
{
    let mut r: Vec<String> = Vec::new();
    r.push(String::new());
    r.push(String::new());
    r.push(String::new());
    r
}

impl App {
    /// The application as it starts: main menu, dark theme, the linear
    /// calculator with cleared inputs, nothing selected.
    pub fn new() -> (r: App)
        ensures
            r.state == AppState::MainMenu,
            r.menu_index == 0,
            r.theme == Theme::Dark,
            r.calculator_mode == CalculatorMode::Linear,
            r.calculator_index == 0,
            r.dashboard_selected == 0,
            r.wrong_answers_selected == 0,
            calculator_cleared(r),
    {
        App {
            state: AppState::MainMenu,
            menu_index: 0,
            theme: Theme::Dark,
            calculator_mode: CalculatorMode::Linear,
            calculator_index: 0,
            input_buffer: String::new(),
            input_fields: empty_fields(),
            current_field: 0,
            calculation_result: None,
            show_steps: false,
            solution_steps: Vec::new(),
            dashboard_selected: 0,
            wrong_answers_selected: 0,
        }
    }

    /// Switches between the dark and the light theme; nothing else changes.
    pub fn toggle_theme(&mut self)
        ensures
            *final(self) == (App { theme: toggled(old(self).theme), ..*old(self) }),
    {
        self.theme = match self.theme {
            Theme::Dark => Theme::Light,
            Theme::Light => Theme::Dark,
        };
    }

    /// Clears the calculator screen's inputs, result and steps.
    pub fn reset_calculator(&mut self)
        ensures
            calculator_cleared(*final(self)),
            same_outside_inputs(*final(self), *old(self)),
    {
        self.input_buffer = String::new();
        self.input_fields = empty_fields();
        self.current_field = 0;
        self.calculation_result = None;
        self.solution_steps.clear();
        self.show_steps = false;
    }
}

/// `b` is `a` with at most the selected input field changed: when the
/// selection names a field, that field now reads `text`.
pub open spec fn field_edited(a: App, b: App, text: Seq<char>) -> bool {
    &&& b == (App { input_fields: b.input_fields, ..a })
    &&& b.input_fields@.len() == a.input_fields@.len()
    &&& forall|j: int| 0 <= j < a.input_fields@.len() && j != a.current_field
        ==> #[trigger] b.input_fields@[j] == a.input_fields@[j]
    &&& a.current_field < a.input_fields@.len() ==> b.input_fields@[a.current_field as int]@ == text
    &&& a.current_field >= a.input_fields@.len() ==> b.input_fields@ == a.input_fields@
}

/// The selected input field's text, or the empty text when none is selected.
pub open spec fn selected_text(a: App) -> Seq<char> {
    if a.current_field < a.input_fields@.len() {
        a.input_fields@[a.current_field as int]@
    } else {
        Seq::empty()
    }
}

/// The key is a digit, `.` or `-` that is typed into a field rather than
/// choosing a calculator (the digits 1 to 4 choose one).
pub open spec fn types_char(key: Key, c: char) -> bool {
    key == Key::Char(c) && is_numeric_input_char(c) && !('1' <= c && c <= '4')
}

/// The calculator screen's reaction to a key press: moves the highlighted
/// calculator (`Up`/`k`, `Down`/`j`, bounded to 0..=3), chooses a calculator
/// (`1` to `4`), shows or hides the steps (`s`), clears the inputs (`c`),
/// selects the next field (`Tab`), types into or erases from the selected
/// field, and tells the caller to leave (`Esc`) or to calculate (`Enter`).
pub fn handle_input(app: &mut App, key: Key) -> (r: InputAction)
    requires
        key == Key::Tab ==> old(app).input_fields@.len() > 0,
    ensures
        r == (if key == Key::Esc {
            InputAction::Leave
        } else if key == Key::Enter {
            InputAction::Calculate
        } else {
            InputAction::Stay
        }),
        key == Key::Up || key == Key::Char('k') ==> *final(app) == (App {
            calculator_index: if old(app).calculator_index == 0 { 0 } else { (old(app).calculator_index - 1) as usize },
            ..*old(app)
        }),
        key == Key::Down || key == Key::Char('j') ==> *final(app) == (App {
            calculator_index: if old(app).calculator_index >= 3 { 3 } else { (old(app).calculator_index + 1) as usize },
            ..*old(app)
        }),
        key == Key::Char('1') ==> *final(app) == (App { calculator_mode: CalculatorMode::Linear, ..*old(app) }),
        key == Key::Char('2') ==> *final(app) == (App { calculator_mode: CalculatorMode::Quadratic, ..*old(app) }),
        key == Key::Char('3') ==> *final(app) == (App { calculator_mode: CalculatorMode::Geometry, ..*old(app) }),
        key == Key::Char('4') ==> *final(app) == (App { calculator_mode: CalculatorMode::Statistics, ..*old(app) }),
        key == Key::Char('s') ==> *final(app) == (App { show_steps: !old(app).show_steps, ..*old(app) }),
        key == Key::Char('c') ==> calculator_cleared(*final(app)) && same_outside_inputs(*final(app), *old(app)),
        key == Key::Tab ==> *final(app) == (App {
            current_field: ((old(app).current_field + 1) % (old(app).input_fields@.len() as int)) as usize,
            ..*old(app)
        }),
        forall|c: char| #[trigger] types_char(key, c) ==> field_edited(*old(app), *final(app), selected_text(*old(app)).push(c)),
        key == Key::Backspace ==> field_edited(*old(app), *final(app), if selected_text(*old(app)).len() == 0 {
            Seq::empty()
        } else {
            selected_text(*old(app)).drop_last()
        }),
        key == Key::Esc || key == Key::Enter || key == Key::Other ==> *final(app) == *old(app),
        forall|c: char| key == Key::Char(c) && !is_numeric_input_char(c) && c != 'k' && c != 'j' && c != 's' && c != 'c'
            ==> *final(app) == *old(app),
{
    match key {
        Key::Esc => {
            return InputAction::Leave;
        },
        Key::Up | Key::Char('k') => {
            app.calculator_index = if app.calculator_index == 0 { 0 } else { app.calculator_index - 1 };
        },
        Key::Down | Key::Char('j') => {
            app.calculator_index = if app.calculator_index >= 3 { 3 } else { app.calculator_index + 1 };
        },
        Key::Char('1') => app.calculator_mode = CalculatorMode::Linear,
        Key::Char('2') => app.calculator_mode = CalculatorMode::Quadratic,
        Key::Char('3') => app.calculator_mode = CalculatorMode::Geometry,
        Key::Char('4') => app.calculator_mode = CalculatorMode::Statistics,
        Key::Char('s') => app.show_steps = !app.show_steps,
        Key::Char('c') => app.reset_calculator(),
        Key::Tab => {
            let n = app.input_fields.len();
            app.current_field = (app.current_field % n + 1) % n;
            proof {
                vstd::arithmetic::div_mod::lemma_add_mod_noop(old(app).current_field as int, 1, n as int);
                vstd::arithmetic::div_mod::lemma_mod_twice(old(app).current_field as int, n as int);
                if n > 1 {
                    vstd::arithmetic::div_mod::lemma_small_mod(1, n as nat);
                } else {
                    assert((old(app).current_field as int % 1 + 1) % 1 == 0);
                    assert((old(app).current_field as int + 1) % 1 == 0);
                }
            }
        },
        Key::Char(c) => {
            if ('0' <= c && c <= '9') || c == '.' || c == '-' {
                let cur = app.current_field;
                if cur < app.input_fields.len() {
                    push_char(&mut app.input_fields[cur], c);
                }
            }
        },
        Key::Backspace => {
            let cur = app.current_field;
            if cur < app.input_fields.len() {
                let ghost before = app.input_fields@[cur as int]@;
                let _ = pop_char(&mut app.input_fields[cur]);
                proof {
                    if before.len() == 0 {
                        assert(app.input_fields@[cur as int]@ =~= Seq::<char>::empty());
                    }
                }
            }
        },
        Key::Enter => {
            return InputAction::Calculate;
        },
        Key::Other => {},
    }
    InputAction::Stay
}

} // verus!
