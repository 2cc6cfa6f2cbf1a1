//! The key-driven state machine of the interactive session.
//!
//! Every transition takes the current state and returns a new one, so each
//! step is a pure function of the state and the input event; the session
//! controller only feeds events in and persists the final state. Entering
//! Password mode generates a fresh random confirmation phrase, whose word
//! count is the state's configurable `challenge_words` parameter.

use vstd::prelude::*;

use crate::domain::{copy_domains, doms_view, Domain, DomainStatus, DomainView};
use crate::list::{add_spec, remove_spec, toggle_spec};
use crate::pass::{gen_pass, is_challenge};
use crate::text::{pop_char, push_char};

verus! {

/// The interaction modes. `Normal` is the initial one.
#[derive(Clone, Copy, PartialEq, Eq, Structural, Debug)]
pub enum Mode {
    Insert,
    Normal,
    Password,
    Help,
}

/// Whether an unblock-relevant change happened since load. A dirty state
/// gates the quit path behind the confirmation phrase.
#[derive(Clone, Copy, PartialEq, Eq, Structural, Debug)]
pub enum Status {
    Dirty,
    Clean,
}

/// A selection movement among the listed domains.
#[derive(Clone, Copy, PartialEq, Eq, Structural, Debug)]
pub enum Movement {
    Top,
    Bottom,
    Up,
    Down,
}

/// An abstract input event, as the terminal front end reports it. Events
/// the editor does not react to arrive as `Other`.
#[derive(Clone, Copy, PartialEq, Eq, Structural, Debug)]
pub enum Key {
    Char(char),
    Enter,
    Esc,
    Backspace,
    Up,
    Down,
    Other,
}

/// The whole state of one editing session.
pub struct State {
    /// Index of the highlighted domain; 0 when the list is empty.
    pub selected: usize,
    /// The domain list, in insertion order.
    pub domains: Vec<Domain>,
    /// The name being typed in Insert mode.
    pub adding: String,
    /// The current interaction mode.
    pub mode: Mode,
    /// Whether an unblock-relevant change happened since load.
    pub status: Status,
    /// The confirmation phrase a dirty quit must retype.
    pub correct_pass: String,
    /// What has been typed so far in Password mode.
    pub pass_input: String,
    /// How many words a freshly generated phrase holds (a configurable
    /// parameter, capped by the fixed word list's length).
    pub challenge_words: usize,
}

/// The mathematical value of a `State`.
pub ghost struct StateView {
    pub selected: int,
    pub domains: Seq<DomainView>,
    pub adding: Seq<char>,
    pub mode: Mode,
    pub status: Status,
    pub correct_pass: Seq<char>,
    pub pass_input: Seq<char>,
    pub challenge_words: int,
}

impl View for State {
    type V = StateView;

    open spec fn view(&self) -> StateView {
        StateView {
            selected: self.selected as int,
            domains: doms_view(self.domains@),
            adding: self.adding@,
            mode: self.mode,
            status: self.status,
            correct_pass: self.correct_pass@,
            pass_input: self.pass_input@,
            challenge_words: self.challenge_words as int,
        }
    }
}

/// The selection invariant: the selection is in range whenever the list is
/// non-empty, and conventionally 0 when it is empty.
pub open spec fn state_inv(s: StateView) -> bool {
    &&& s.domains.len() > 0 ==> 0 <= s.selected < s.domains.len()
    &&& s.domains.len() == 0 ==> s.selected == 0
}

/// An independent copy of the whole state.
fn copy_state(s: &State) -> (r: State)
    ensures
        r@ == s@,
{
    State {
        selected: s.selected,
        domains: copy_domains(&s.domains),
        adding: s.adding.clone(),
        mode: s.mode,
        status: s.status,
        correct_pass: s.correct_pass.clone(),
        pass_input: s.pass_input.clone(),
        challenge_words: s.challenge_words,
    }
}

/// The state a session starts from: the parsed list, nothing selected yet
/// beyond the first entry, Normal mode, clean.
pub fn initial_state(domains: Vec<Domain>, challenge_words: usize) -> (r: State)
    ensures
        r@ == (StateView {
            selected: 0,
            domains: doms_view(domains@),
            adding: Seq::empty(),
            mode: Mode::Normal,
            status: Status::Clean,
            correct_pass: Seq::empty(),
            pass_input: Seq::empty(),
            challenge_words: challenge_words as int,
        }),
        state_inv(r@),
{
    State {
        selected: 0,
        domains,
        adding: String::new(),
        mode: Mode::Normal,
        status: Status::Clean,
        correct_pass: String::new(),
        pass_input: String::new(),
        challenge_words,
    }
}

/// What a selection movement yields: wraparound stepping, or a jump to
/// either end; a no-op on an empty list.
pub open spec fn spec_move_sel(s: StateView, m: Movement) -> StateView {
    if s.domains.len() == 0 {
        s
    } else {
        let sel: int = match m {
            Movement::Top => 0,
            Movement::Bottom => s.domains.len() - 1,
            Movement::Up => if s.selected == 0 {
                s.domains.len() - 1
            } else {
                s.selected - 1
            },
            Movement::Down => if s.selected == s.domains.len() - 1 {
                0
            } else {
                s.selected + 1
            },
        };
        StateView { selected: sel, ..s }
    }
}

pub open spec fn spec_switch_mode(s: StateView, m: Mode) -> StateView {
    StateView { mode: m, ..s }
}

/// Entering Password mode: the mode switches and a fresh challenge phrase
/// replaces the old one.
pub open spec fn spec_password_mode(s: StateView, chal: Seq<char>) -> StateView {
    StateView { mode: Mode::Password, correct_pass: chal, ..s }
}

/// Adding a name: a blocked entry is appended and the draft is cleared.
/// Adding alone does not mark the state dirty: only unblocking and
/// deletion do.
pub open spec fn spec_add_url(s: StateView, url: Seq<char>) -> StateView {
    StateView { domains: add_spec(s.domains, url), adding: Seq::empty(), ..s }
}

/// Deleting the selected entry: the selection clamps down by one and the
/// state is marked dirty; a no-op on an empty list.
pub open spec fn spec_delete_selected(s: StateView) -> StateView {
    if s.domains.len() == 0 {
        s
    } else {
        StateView {
            domains: remove_spec(s.domains, s.selected),
            selected: if s.selected > 0 {
                s.selected - 1
            } else {
                0
            },
            status: Status::Dirty,
            ..s
        }
    }
}

/// Toggling the selected entry: only its status flips, and only the
/// security-relevant direction (blocked to unblocked) marks the state
/// dirty; re-blocking is always safe to quit after. A no-op on an empty
/// list.
pub open spec fn spec_toggle_block(s: StateView) -> StateView {
    if s.domains.len() == 0 {
        s
    } else {
        StateView {
            domains: toggle_spec(s.domains, s.selected),
            status: if s.domains[s.selected].status is Blocked {
                Status::Dirty
            } else {
                s.status
            },
            ..s
        }
    }
}

pub open spec fn spec_add_char(s: StateView, c: char) -> StateView {
    StateView { adding: s.adding.push(c), ..s }
}

pub open spec fn spec_backspace(s: StateView) -> StateView {
    if s.adding.len() == 0 {
        s
    } else {
        StateView { adding: s.adding.drop_last(), ..s }
    }
}

pub open spec fn spec_add_password_char(s: StateView, c: char) -> StateView {
    StateView { pass_input: s.pass_input.push(c), ..s }
}

pub open spec fn spec_password_backspace(s: StateView) -> StateView {
    if s.pass_input.len() == 0 {
        s
    } else {
        StateView { pass_input: s.pass_input.drop_last(), ..s }
    }
}

/// Attempting to quit: a clean session ends at once; a dirty one enters
/// Password mode with a fresh challenge instead.
pub open spec fn spec_attempt_quit(s: StateView, chal: Seq<char>) -> (bool, StateView) {
    match s.status {
        Status::Clean => (true, s),
        Status::Dirty => (false, spec_password_mode(s, chal)),
    }
}

/// Blocking every entry; names, order and everything else are untouched,
/// and the state is not marked dirty (blocking is the safe direction).
pub open spec fn spec_block_all(s: StateView) -> StateView {
    StateView {
        domains: s.domains.map_values(
            |d: DomainView| DomainView { url: d.url, status: DomainStatus::Blocked },
        ),
        ..s
    }
}

/// Unblocking every entry: the state is marked dirty and the session is
/// routed through Password mode with a fresh challenge, since unblocking
/// is always gated.
pub open spec fn spec_unblock_all(s: StateView, chal: Seq<char>) -> StateView {
    StateView {
        domains: s.domains.map_values(
            |d: DomainView| DomainView { url: d.url, status: DomainStatus::Unblocked },
        ),
        status: Status::Dirty,
        mode: Mode::Password,
        correct_pass: chal,
        ..s
    }
}

/// One step in Normal mode.
pub open spec fn spec_normal_step(k: Key, s: StateView, chal: Seq<char>) -> (bool, StateView) {
    match k {
        Key::Char(c) => if c == 'q' {
            spec_attempt_quit(s, chal)
        } else if c == 'i' {
            (false, spec_switch_mode(s, Mode::Insert))
        } else if c == 'h' {
            (false, spec_switch_mode(s, Mode::Help))
        } else if c == 'j' {
            (false, spec_move_sel(s, Movement::Down))
        } else if c == 'k' {
            (false, spec_move_sel(s, Movement::Up))
        } else if c == 'J' {
            (false, spec_move_sel(s, Movement::Bottom))
        } else if c == 'K' {
            (false, spec_move_sel(s, Movement::Top))
        } else if c == 'd' {
            (false, spec_delete_selected(s))
        } else if c == ' ' {
            (false, spec_toggle_block(s))
        } else {
            (false, s)
        },
        Key::Esc => spec_attempt_quit(s, chal),
        Key::Down => (false, spec_move_sel(s, Movement::Down)),
        Key::Up => (false, spec_move_sel(s, Movement::Up)),
        _ => (false, s),
    }
}

/// One step in Insert mode. Enter confirms a non-empty draft; cancelling
/// discards the draft, so stale text cannot reappear on re-entry.
pub open spec fn spec_insert_step(k: Key, s: StateView) -> StateView {
    match k {
        Key::Enter => if s.adding.len() == 0 {
            spec_switch_mode(s, Mode::Normal)
        } else {
            spec_switch_mode(spec_add_url(s, s.adding), Mode::Normal)
        },
        Key::Esc => StateView { mode: Mode::Normal, adding: Seq::empty(), ..s },
        Key::Backspace => spec_backspace(s),
        Key::Char(c) => spec_add_char(s, c),
        _ => s,
    }
}

/// One step in Password mode. Enter with the exact challenge ends the
/// session; a wrong attempt clears the typed text and stays, with no limit
/// on retries; cancelling aborts the quit and returns to Normal.
pub open spec fn spec_password_step(k: Key, s: StateView) -> (bool, StateView) {
    match k {
        Key::Enter => if s.pass_input == s.correct_pass {
            (true, s)
        } else {
            (false, StateView { pass_input: Seq::empty(), ..s })
        },
        Key::Esc => (false, StateView { mode: Mode::Normal, pass_input: Seq::empty(), ..s }),
        Key::Backspace => (false, spec_password_backspace(s)),
        Key::Char(c) => (false, spec_add_password_char(s, c)),
        _ => (false, s),
    }
}

/// One step in Help mode: a transparent overlay. Navigation and mode keys
/// behave as in Normal mode, the toggle key still mutates the list live,
/// and cancel or quit returns to Normal.
pub open spec fn spec_help_step(k: Key, s: StateView) -> StateView {
    match k {
        Key::Char(c) => if c == 'q' {
            spec_switch_mode(s, Mode::Normal)
        } else if c == 'i' {
            spec_switch_mode(s, Mode::Insert)
        } else if c == 'h' {
            spec_switch_mode(s, Mode::Help)
        } else if c == 'j' {
            spec_move_sel(s, Movement::Down)
        } else if c == 'k' {
            spec_move_sel(s, Movement::Up)
        } else if c == 'J' {
            spec_move_sel(s, Movement::Bottom)
        } else if c == 'K' {
            spec_move_sel(s, Movement::Top)
        } else if c == ' ' {
            spec_toggle_block(s)
        } else {
            s
        },
        Key::Esc => spec_switch_mode(s, Mode::Normal),
        Key::Down => spec_move_sel(s, Movement::Down),
        Key::Up => spec_move_sel(s, Movement::Up),
        _ => s,
    }
}

/// One step of the whole machine: dispatch on the current mode. The first
/// component says whether the session ends.
pub open spec fn spec_step(k: Key, s: StateView, chal: Seq<char>) -> (bool, StateView) {
    match s.mode {
        Mode::Normal => spec_normal_step(k, s, chal),
        Mode::Insert => (false, spec_insert_step(k, s)),
        Mode::Password => spec_password_step(k, s),
        Mode::Help => (false, spec_help_step(k, s)),
    }
}

/// Whether this step is the one that generates a fresh challenge: a quit
/// attempt from a dirty Normal state.
pub open spec fn enters_password(k: Key, s: StateView) -> bool {
    s.mode is Normal && (k == Key::Char('q') || k == Key::Esc) && s.status is Dirty
}

/// Moves the selection; a no-op on an empty list.
pub fn move_sel(state: &State, movement: Movement) -> (r: State)
    requires
        state_inv(state@),
    ensures
        r@ == spec_move_sel(state@, movement),
{
    let len = state.domains.len();
    if len == 0 {
        return copy_state(state);
    }
    let mut ns = copy_state(state);
    ns.selected = match movement {
        Movement::Top => 0,
        Movement::Bottom => len - 1,
        Movement::Up => {
            if state.selected == 0 {
                len - 1
            } else {
                state.selected - 1
            }
        },
        Movement::Down => {
            if state.selected == len - 1 {
                0
            } else {
                state.selected + 1
            }
        },
    };
    ns
}

/// Switches the interaction mode and changes nothing else.
pub fn switch_mode(state: &State, mode: Mode) -> (r: State)
    ensures
        r@ == spec_switch_mode(state@, mode),
{
    let mut ns = copy_state(state);
    ns.mode = mode;
    ns
}

/// Returns to Normal mode.
pub fn normal_mode(state: &State) -> (r: State)
    ensures
        r@ == spec_switch_mode(state@, Mode::Normal),
{
    switch_mode(state, Mode::Normal)
}

/// Enters Password mode, generating a fresh confirmation phrase.
pub fn password_mode(state: &State) -> (r: State)
    ensures
        r@ == spec_password_mode(state@, r@.correct_pass),
        is_challenge(r@.correct_pass, state@.challenge_words),
{
    let mut ns = copy_state(state);
    ns.mode = Mode::Password;
    ns.correct_pass = gen_pass(state.challenge_words);
    ns
}

/// Enters Insert mode.
pub fn insert_mode(state: &State) -> (r: State)
    ensures
        r@ == spec_switch_mode(state@, Mode::Insert),
{
    switch_mode(state, Mode::Insert)
}

/// Enters Help mode.
pub fn help_mode(state: &State) -> (r: State)
    ensures
        r@ == spec_switch_mode(state@, Mode::Help),
{
    switch_mode(state, Mode::Help)
}

/// Appends a new blocked domain named `url` and clears the draft.
pub fn add_url(state: &State, url: &str) -> (r: State)
    ensures
        r@ == spec_add_url(state@, url@),
{
    let mut ns = copy_state(state);
    ns.domains = crate::list::add(&state.domains, url);
    ns.adding = String::new();
    ns
}

/// Removes the selected domain, clamps the selection down by one, and
/// marks the state dirty; a no-op on an empty list.
pub fn delete_selected(state: &State) -> (r: State)
    requires
        state_inv(state@),
    ensures
        r@ == spec_delete_selected(state@),
{
    if state.domains.len() == 0 {
        return copy_state(state);
    }
    let mut ns = copy_state(state);
    ns.domains = match crate::list::remove(&state.domains, state.selected) {
        Ok(d) => d,
        Err(_) => {
            proof {
                assert(false);
            }
            copy_domains(&state.domains)
        },
    };
    ns.selected = if state.selected > 0 {
        state.selected - 1
    } else {
        0
    };
    ns.status = Status::Dirty;
    ns
}

/// Appends one typed character to the Insert draft.
pub fn add_char(state: &State, c: char) -> (r: State)
    ensures
        r@ == spec_add_char(state@, c),
{
    let mut ns = copy_state(state);
    push_char(&mut ns.adding, c);
    ns
}

/// Appends one typed character to the Password draft.
pub fn add_password_char(state: &State, c: char) -> (r: State)
    ensures
        r@ == spec_add_password_char(state@, c),
{
    let mut ns = copy_state(state);
    push_char(&mut ns.pass_input, c);
    ns
}

/// Removes the last character of the Insert draft; a no-op when empty.
pub fn backspace(state: &State) -> (r: State)
    ensures
        r@ == spec_backspace(state@),
{
    let mut ns = copy_state(state);
    let _ = pop_char(&mut ns.adding);
    ns
}

/// Removes the last character of the Password draft; a no-op when empty.
pub fn password_backspace(state: &State) -> (r: State)
    ensures
        r@ == spec_password_backspace(state@),
{
    let mut ns = copy_state(state);
    let _ = pop_char(&mut ns.pass_input);
    ns
}

/// Marks every entry blocked; everything else is untouched.
pub fn block_all(state: State) -> (r: State)
    ensures
        r@ == spec_block_all(state@),
{
    let mut out: Vec<Domain> = Vec::new();
    let mut i: usize = 0;
    let n = state.domains.len();
    while i < n
        invariant
            i <= n,
            n == state.domains@.len(),
            out@.len() == i,
            forall|j: int|
                0 <= j < i ==> #[trigger] out@[j]@ == (DomainView {
                    url: state.domains@[j]@.url,
                    status: DomainStatus::Blocked,
                }),
        decreases n - i,
    {
        out.push(Domain { url: state.domains[i].url.clone(), status: DomainStatus::Blocked });
        i = i + 1;
    }
    proof {
        assert(doms_view(out@) =~= state@.domains.map_values(
            |d: DomainView| DomainView { url: d.url, status: DomainStatus::Blocked },
        ));
    }
    let mut ns = state;
    ns.domains = out;
    ns
}

/// Marks every entry unblocked, marks the state dirty, and routes the
/// session through Password mode with a fresh challenge: unblocking is
/// always gated.
pub fn unblock_all(state: State) -> (r: State)
    ensures
        r@ == spec_unblock_all(state@, r@.correct_pass),
        is_challenge(r@.correct_pass, state@.challenge_words),
{
    let mut out: Vec<Domain> = Vec::new();
    let mut i: usize = 0;
    let n = state.domains.len();
    while i < n
        invariant
            i <= n,
            n == state.domains@.len(),
            out@.len() == i,
            forall|j: int|
                0 <= j < i ==> #[trigger] out@[j]@ == (DomainView {
                    url: state.domains@[j]@.url,
                    status: DomainStatus::Unblocked,
                }),
        decreases n - i,
    {
        out.push(Domain { url: state.domains[i].url.clone(), status: DomainStatus::Unblocked });
        i = i + 1;
    }
    proof {
        assert(doms_view(out@) =~= state@.domains.map_values(
            |d: DomainView| DomainView { url: d.url, status: DomainStatus::Unblocked },
        ));
    }
    let words = state.challenge_words;
    let mut ns = state;
    ns.domains = out;
    ns.status = Status::Dirty;
    ns.mode = Mode::Password;
    ns.correct_pass = gen_pass(words);
    ns
}

/// Flips the selected entry's status; only unblocking marks the state
/// dirty. A no-op on an empty list.
pub fn toggle_block(state: &State) -> (r: State)
    requires
        state_inv(state@),
    ensures
        r@ == spec_toggle_block(state@),
{
    if state.domains.len() == 0 {
        return copy_state(state);
    }
    let was_blocked = state.domains[state.selected].status == DomainStatus::Blocked;
    let mut ns = copy_state(state);
    ns.domains = match crate::list::toggle(&state.domains, state.selected) {
        Ok(d) => d,
        Err(_) => {
            proof {
                assert(false);
            }
            copy_domains(&state.domains)
        },
    };
    if was_blocked {
        ns.status = Status::Dirty;
    }
    ns
}

/// Attempts to quit: a clean session ends at once; a dirty one enters
/// Password mode with a fresh challenge instead.
pub fn attempt_quit(state: &State) -> (r: (bool, State))
    ensures
        (r.0, r.1@) == spec_attempt_quit(state@, r.1@.correct_pass),
        state@.status is Dirty ==> is_challenge(r.1@.correct_pass, state@.challenge_words),
{
    match state.status {
        Status::Dirty => (false, password_mode(state)),
        Status::Clean => (true, copy_state(state)),
    }
}

/// Handles one key in Normal mode.
pub fn handle_normal_input(key: Key, state: &State) -> (r: (bool, State))
    requires
        state_inv(state@),
    ensures
        (r.0, r.1@) == spec_normal_step(key, state@, r.1@.correct_pass),
        enters_password(key, StateView { mode: Mode::Normal, ..state@ }) ==> is_challenge(
            r.1@.correct_pass,
            state@.challenge_words,
        ),
{
    match key {
        Key::Char(c) => {
            if c == 'q' {
                attempt_quit(state)
            } else if c == 'i' {
                (false, insert_mode(state))
            } else if c == 'h' {
                (false, help_mode(state))
            } else if c == 'j' {
                (false, move_sel(state, Movement::Down))
            } else if c == 'k' {
                (false, move_sel(state, Movement::Up))
            } else if c == 'J' {
                (false, move_sel(state, Movement::Bottom))
            } else if c == 'K' {
                (false, move_sel(state, Movement::Top))
            } else if c == 'd' {
                (false, delete_selected(state))
            } else if c == ' ' {
                (false, toggle_block(state))
            } else {
                (false, copy_state(state))
            }
        },
        Key::Esc => attempt_quit(state),
        Key::Down => (false, move_sel(state, Movement::Down)),
        Key::Up => (false, move_sel(state, Movement::Up)),
        _ => (false, copy_state(state)),
    }
}

/// Handles one key in Insert mode.
pub fn handle_insert_input(key: Key, state: &State) -> (r: (bool, State))
    ensures
        (r.0, r.1@) == (false, spec_insert_step(key, state@)),
{
    match key {
        Key::Enter => {
            if state.adding.as_str().is_empty() {
                (false, normal_mode(state))
            } else {
                let added = add_url(state, state.adding.as_str());
                (false, normal_mode(&added))
            }
        },
        Key::Esc => {
            let mut ns = copy_state(state);
            ns.mode = Mode::Normal;
            ns.adding = String::new();
            (false, ns)
        },
        Key::Backspace => (false, backspace(state)),
        Key::Char(c) => (false, add_char(state, c)),
        _ => (false, copy_state(state)),
    }
}

/// Handles one key in Password mode.
pub fn handle_password_input(key: Key, state: &State) -> (r: (bool, State))
    ensures
        (r.0, r.1@) == spec_password_step(key, state@),
{
    match key {
        Key::Enter => {
            if state.pass_input == state.correct_pass {
                (true, copy_state(state))
            } else {
                let mut ns = copy_state(state);
                ns.pass_input = String::new();
                (false, ns)
            }
        },
        Key::Esc => {
            let mut ns = copy_state(state);
            ns.mode = Mode::Normal;
            ns.pass_input = String::new();
            (false, ns)
        },
        Key::Backspace => (false, password_backspace(state)),
        Key::Char(c) => (false, add_password_char(state, c)),
        _ => (false, copy_state(state)),
    }
}

/// Handles one key in Help mode.
pub fn handle_help_input(key: Key, state: &State) -> (r: (bool, State))
    requires
        state_inv(state@),
    ensures
        (r.0, r.1@) == (false, spec_help_step(key, state@)),
{
    match key {
        Key::Char(c) => {
            if c == 'q' {
                (false, normal_mode(state))
            } else if c == 'i' {
                (false, insert_mode(state))
            } else if c == 'h' {
                (false, help_mode(state))
            } else if c == 'j' {
                (false, move_sel(state, Movement::Down))
            } else if c == 'k' {
                (false, move_sel(state, Movement::Up))
            } else if c == 'J' {
                (false, move_sel(state, Movement::Bottom))
            } else if c == 'K' {
                (false, move_sel(state, Movement::Top))
            } else if c == ' ' {
                (false, toggle_block(state))
            } else {
                (false, copy_state(state))
            }
        },
        Key::Esc => (false, normal_mode(state)),
        Key::Down => (false, move_sel(state, Movement::Down)),
        Key::Up => (false, move_sel(state, Movement::Up)),
        _ => (false, copy_state(state)),
    }
}

/// Handles one key in whatever mode the state is in. The boolean says
/// whether the session ends with this step.
pub fn handle_key(key: Key, state: &State) -> (r: (bool, State))
    requires
        state_inv(state@),
    ensures
        (r.0, r.1@) == spec_step(key, state@, r.1@.correct_pass),
        enters_password(key, state@) ==> is_challenge(r.1@.correct_pass, state@.challenge_words),
{
    match state.mode {
        Mode::Normal => handle_normal_input(key, state),
        Mode::Insert => handle_insert_input(key, state),
        Mode::Password => handle_password_input(key, state),
        Mode::Help => handle_help_input(key, state),
    }
}

/// The selection invariant holds after every step taken from a state where
/// it holds: the machine never moves the selection out of range.
pub proof fn lemma_selection_invariant(k: Key, s: StateView, chal: Seq<char>)
    requires
        state_inv(s),
    ensures
        state_inv(spec_step(k, s, chal).1),
{
}

/// Dirty asymmetry: toggling a blocked entry marks the state dirty, while
/// toggling an unblocked entry of a clean state leaves it clean.
pub proof fn lemma_dirty_asymmetry(s: StateView)
    requires
        state_inv(s),
        s.domains.len() > 0,
    ensures
        s.domains[s.selected].status is Blocked ==> spec_toggle_block(s).status is Dirty,
        s.domains[s.selected].status is Unblocked && s.status is Clean ==> spec_toggle_block(
            s,
        ).status is Clean,
{
}

/// Quit gating: from a clean Normal state the quit key ends the session at
/// once; from a dirty Normal state it only enters Password mode; and from
/// Password mode the session ends exactly on Enter with the challenge
/// phrase retyped. No other mode can end the session.
pub proof fn lemma_quit_gating(k: Key, s: StateView, chal: Seq<char>)
    requires
        state_inv(s),
    ensures
        s.mode is Normal && (k == Key::Char('q') || k == Key::Esc) && s.status is Clean
            ==> spec_step(k, s, chal) == (true, s),
        s.mode is Normal && (k == Key::Char('q') || k == Key::Esc) && s.status is Dirty ==> (
        !spec_step(k, s, chal).0 && spec_step(k, s, chal).1.mode is Password),
        s.mode is Password ==> (spec_step(k, s, chal).0 <==> k == Key::Enter && s.pass_input
            == s.correct_pass),
        s.mode is Insert || s.mode is Help ==> !spec_step(k, s, chal).0,
{
}

} // verus!
