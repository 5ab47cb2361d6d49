//! Key handling and the splitting of a command line into words
use vstd::prelude::*;
use crate::app::NO_OF_TABS;

verus! {

/// The pieces of `s` between single spaces, as `str::split(" ")` gives them
pub open spec fn split_spaces(s: Seq<char>) -> Seq<Seq<char>>
    decreases s.len(),
{
    if s.len() == 0 {
        seq![Seq::<char>::empty()]
    } else {
        let prev = split_spaces(s.drop_last());
        if s.last() == ' ' {
            prev.push(Seq::<char>::empty())
        } else {
            prev.update(prev.len() - 1, prev.last().push(s.last()))
        }
    }
}

/// The ASCII lower case of a character; other characters are unchanged
pub open spec fn lower_char(c: char) -> char {
    if 'A' <= c <= 'Z' {
        ((c as u32) + 32) as char
    } else {
        c
    }
}

/// The ASCII lower case of a word
pub open spec fn lower(s: Seq<char>) -> Seq<char> {
    s.map_values(|c: char| lower_char(c))
}

/// Lower-casing changes each character on its own, whatever its position: an ASCII capital
/// becomes the letter 32 code points later, every other character stays, and no ASCII capital
/// is left
pub proof fn lemma_lower_each_char(s: Seq<char>)
    ensures
        lower(s).len() == s.len(),
        forall|i: int|
            0 <= i < s.len() && 'A' <= s[i] <= 'Z' ==> (#[trigger] lower(s)[i]) as u32 == s[i] as u32
                + 32,
        forall|i: int| 0 <= i < s.len() && !('A' <= s[i] <= 'Z') ==> #[trigger] lower(s)[i] == s[i],
        forall|i: int| 0 <= i < s.len() ==> !('A' <= #[trigger] lower(s)[i] <= 'Z'),
{
    assert forall|i: int| 0 <= i < s.len() implies {
        &&& ('A' <= s[i] <= 'Z' ==> (#[trigger] lower(s)[i]) as u32 == s[i] as u32 + 32)
        &&& (!('A' <= s[i] <= 'Z') ==> lower(s)[i] == s[i])
        &&& !('A' <= lower(s)[i] <= 'Z')
    } by {
        assert(lower(s)[i] == lower_char(s[i]));
    }
}

/// Split a command line into the pieces between single spaces
pub fn split_spaces_exec(s: &Vec<char>) -> (r: Vec<Vec<char>>)
    ensures
        r@.map_values(|w: Vec<char>| w@) == split_spaces(s@),
{
    let mut r: Vec<Vec<char>> = Vec::new();
    r.push(Vec::new());
    let mut i: usize = 0;
    proof {
        assert(s@.take(0) =~= Seq::<char>::empty());
        assert(r@.map_values(|w: Vec<char>| w@) =~= split_spaces(s@.take(0)));
    }
    while i < s.len()
        invariant
            0 <= i <= s.len(),
            r@.len() >= 1,
            r@.map_values(|w: Vec<char>| w@) == split_spaces(s@.take(i as int)),
        decreases s.len() - i,
    {
        let c = s[i];
        let ghost prev = r@.map_values(|w: Vec<char>| w@);
        proof {
            assert(s@.take(i + 1).drop_last() =~= s@.take(i as int));
            assert(s@.take(i + 1).last() == c);
        }
        if c == ' ' {
            r.push(Vec::new());
            proof {
                assert(r@.map_values(|w: Vec<char>| w@) =~= prev.push(Seq::<char>::empty()));
            }
        } else {
            let last = r.len() - 1;
            let ghost before = r@;
            r[last].push(c);
            proof {
                assert(r@.map_values(|w: Vec<char>| w@) =~= prev.update(
                    prev.len() - 1,
                    prev.last().push(c),
                )) by {
                    assert forall|k: int| 0 <= k < r@.len() implies #[trigger] r@[k]@ == prev.update(
                        prev.len() - 1,
                        prev.last().push(c),
                    )[k] by {
                        if k != last {
                            assert(r@[k] == before[k]);
                        }
                    }
                }
            }
        }
        i = i + 1;
    }
    proof {
        assert(s@.take(s.len() as int) =~= s@);
    }
    r
}

/// The ASCII lower case of a word
pub fn to_ascii_lowercase(s: &Vec<char>) -> (r: Vec<char>)
    ensures
        r@ == lower(s@),
        r@.len() == s@.len(),
        forall|i: int|
            0 <= i < s@.len() && 'A' <= s@[i] <= 'Z' ==> (#[trigger] r@[i]) as u32 == s@[i] as u32
                + 32,
        forall|i: int| 0 <= i < s@.len() && !('A' <= s@[i] <= 'Z') ==> #[trigger] r@[i] == s@[i],
{
    let mut r: Vec<char> = Vec::new();
    let mut i: usize = 0;
    while i < s.len()
        invariant
            0 <= i <= s.len(),
            r@ == lower(s@.take(i as int)),
        decreases s.len() - i,
    {
        let c = s[i];
        let l = if 'A' <= c && c <= 'Z' {
            ((c as u8) + 32) as char
        } else {
            c
        };
        proof {
            assert(l == lower_char(c));
        }
        r.push(l);
        proof {
            assert(lower(s@.take(i + 1)) =~= lower(s@.take(i as int)).push(lower_char(c)));
        }
        i = i + 1;
    }
    proof {
        assert(s@.take(s.len() as int) =~= s@);
        lemma_lower_each_char(s@);
    }
    r
}

/// The word "none", given as the optional variable of a command that has none
pub open spec fn none_word() -> Seq<char> {
    seq!['n', 'o', 'n', 'e']
}

/// A command line split into its lower-case command, variable and optional variable
pub struct CommandWords {
    pub cmd: Vec<char>,
    pub var: Vec<char>,
    pub opt_var: Vec<char>,
}

/// The words of a command line of two or three pieces
pub open spec fn command_words_of(pieces: Seq<Seq<char>>) -> (Seq<char>, Seq<char>, Seq<char>) {
    (lower(pieces[0]), lower(pieces[1]), if pieces.len() == 3 {
        lower(pieces[2])
    } else {
        none_word()
    })
}

/// A key press, as far as the command line is concerned
#[derive(Debug, Clone, Copy, PartialEq, Eq, Structural)]
pub enum KeyInput {
    Esc,
    Tab,
    Char(char),
    Backspace,
    Enter,
    Other,
}

/// What a key press asks of the application
pub enum KeyOutcome {
    /// Nothing more to do
    Handled,
    /// A command was entered; its words are given
    Command(CommandWords),
}

/// The state of the command line interface
pub struct CliState {
    /// should the application exit?
    pub should_quit: bool,
    ///Tab selection
    pub tab_no: usize,
    ///Current CLI input
    pub curr_input: Vec<char>,
    ///Current error message
    pub curr_error: String,
}

/// The error shown for a command line that is not two or three words
pub open spec fn invalid_command_message() -> Seq<char> {
    "Invalid command! - Command format is [cmd] [variable] [OPTIONAL: variable]"@
}

impl CliState {
    /// A command line with no input, no error, on the first tab
    pub fn new() -> (r: Self)
        ensures
            !r.should_quit,
            r.tab_no == 0,
            r.curr_input@ == Seq::<char>::empty(),
            r.curr_error@ == Seq::<char>::empty(),
    {
        CliState { should_quit: false, tab_no: 0, curr_input: Vec::new(), curr_error: String::new() }
    }

    /// Set should_quit to true to quit the application.
    pub fn quit(&mut self)
        ensures
            final(self).should_quit,
            final(self).tab_no == old(self).tab_no,
            final(self).curr_input@ == old(self).curr_input@,
            final(self).curr_error@ == old(self).curr_error@,
    {
        self.should_quit = true;
    }

    /// After a command has been carried out: a command that succeeded clears the error and the
    /// input; a failed one leaves both
    pub fn command_finished(&mut self, succeeded: bool)
        ensures
            final(self).should_quit == old(self).should_quit,
            final(self).tab_no == old(self).tab_no,
            succeeded ==> final(self).curr_input@ == Seq::<char>::empty()
                && final(self).curr_error@ == Seq::<char>::empty(),
            !succeeded ==> final(self).curr_input@ == old(self).curr_input@
                && final(self).curr_error@ == old(self).curr_error@,
    {
        if succeeded {
            self.curr_error = String::new();
            self.curr_input = Vec::new();
        }
    }
}

/// What handling a key press does to the command line: Esc quits, Tab cycles through the tabs,
/// characters and Backspace edit the input, and Enter submits the input as a command when it is
/// two or three words long (else the error is shown and the input kept)
pub open spec fn handles_key(before: CliState, key: KeyInput, after: CliState, r: KeyOutcome) -> bool {
    &&& after.should_quit == (before.should_quit || key == KeyInput::Esc)
    &&& after.tab_no == (if key == KeyInput::Tab {
        if before.tab_no == NO_OF_TABS {
            0int
        } else {
            before.tab_no + 1
        }
    } else {
        before.tab_no as int
    })
    &&& after.curr_input@ == (match key {
        KeyInput::Char(c) => before.curr_input@.push(c),
        KeyInput::Backspace => if before.curr_input@.len() > 0 {
            before.curr_input@.drop_last()
        } else {
            before.curr_input@
        },
        _ => before.curr_input@,
    })
    &&& ({
        let pieces = split_spaces(before.curr_input@);
        let valid = pieces.len() == 2 || pieces.len() == 3;
        &&& key == KeyInput::Enter && !valid ==> after.curr_error@
            == invalid_command_message()
        &&& !(key == KeyInput::Enter && !valid) ==> after.curr_error@
            == before.curr_error@
        &&& match r {
            KeyOutcome::Command(w) => key == KeyInput::Enter && valid && (w.cmd@, w.var@, w.opt_var@)
                == command_words_of(pieces),
            KeyOutcome::Handled => !(key == KeyInput::Enter && valid),
        }
    })
}

/// Handle a key press: Esc quits, Tab cycles through the tabs, characters and Backspace edit
/// the input, and Enter submits the input as a command when it is two or three words long
/// (else the error is shown and the input kept).
pub fn update(app: &mut CliState, key_event: KeyInput) -> (r: KeyOutcome)
    requires
        key_event == KeyInput::Tab ==> old(app).tab_no < usize::MAX,
    ensures
        handles_key(*old(app), key_event, *final(app), r),
{
    match key_event {
        //Close the app
        KeyInput::Esc => {
            app.quit();
            KeyOutcome::Handled
        },
        //Change the tab number
        KeyInput::Tab => {
            //Cycle up to the number of tabs then back to 0
            app.tab_no = if app.tab_no == NO_OF_TABS {
                0
            } else {
                app.tab_no + 1
            };
            KeyOutcome::Handled
        },
        //Terminal based control
        KeyInput::Char(inp) => {
            app.curr_input.push(inp);
            KeyOutcome::Handled
        },
        //Allow the user to delete
        KeyInput::Backspace => {
            app.curr_input.pop();
            KeyOutcome::Handled
        },
        //Accept user confirmation
        KeyInput::Enter => {
            //split the user input into command and variable
            let cmd_var = split_spaces_exec(&app.curr_input);
            let ghost pieces = split_spaces(app.curr_input@);
            proof {
                assert(cmd_var@.len() == pieces.len());
            }
            if cmd_var.len() != 2 && cmd_var.len() != 3 {
                app.curr_error = "Invalid command! - Command format is [cmd] [variable] [OPTIONAL: variable]".to_owned();
                return KeyOutcome::Handled;
            }
            proof {
                assert(cmd_var@[0]@ == pieces[0]);
                assert(cmd_var@[1]@ == pieces[1]);
                if cmd_var@.len() == 3 {
                    assert(cmd_var@[2]@ == pieces[2]);
                }
            }
            let cmd = to_ascii_lowercase(&cmd_var[0]);
            let var = to_ascii_lowercase(&cmd_var[1]);
            let opt_var = if cmd_var.len() == 3 {
                to_ascii_lowercase(&cmd_var[2])
            } else {
                let v = vec!['n', 'o', 'n', 'e'];
                proof {
                    assert(v@ =~= none_word());
                }
                v
            };
            KeyOutcome::Command(CommandWords { cmd, var, opt_var })
        },
        _ => KeyOutcome::Handled,
    }
}

/// Typing a character and then pressing Backspace gives back the command line as it was
pub proof fn lemma_type_then_erase(
    s0: CliState,
    c: char,
    s1: CliState,
    r1: KeyOutcome,
    s2: CliState,
    r2: KeyOutcome,
)
    requires
        handles_key(s0, KeyInput::Char(c), s1, r1),
        handles_key(s1, KeyInput::Backspace, s2, r2),
    ensures
        s2.should_quit == s0.should_quit,
        s2.tab_no == s0.tab_no,
        s2.curr_input@ == s0.curr_input@,
        s2.curr_error@ == s0.curr_error@,
        r1 is Handled,
        r2 is Handled,
{
    assert(s0.curr_input@.push(c).drop_last() =~= s0.curr_input@);
}

/// Tab moves through the tabs `0 ..= NO_OF_TABS` in turn, from the last one back to the first,
/// and leaves the input as it is
pub proof fn lemma_tab_cycles(s0: CliState, s1: CliState, r: KeyOutcome)
    requires
        s0.tab_no <= NO_OF_TABS,
        handles_key(s0, KeyInput::Tab, s1, r),
    ensures
        s1.tab_no == (s0.tab_no + 1) % (NO_OF_TABS + 1),
        s1.tab_no <= NO_OF_TABS,
        s1.curr_input@ == s0.curr_input@,
        s1.curr_error@ == s0.curr_error@,
        r is Handled,
{
}

/// Whether a word is the given keyword
pub fn word_is(w: &Vec<char>, keyword: &str) -> (r: bool)
    ensures
        r == (w@ == keyword@),
{
    let n = keyword.unicode_len();
    if w.len() != n {
        return false;
    }
    let mut i: usize = 0;
    while i < n
        invariant
            0 <= i <= n,
            n == keyword@.len(),
            w@.len() == n,
            forall|j: int| 0 <= j < i ==> w@[j] == keyword@[j],
        decreases n - i,
    {
        if w[i] != keyword.get_char(i) {
            return false;
        }
        i = i + 1;
    }
    proof {
        assert(w@ =~= keyword@);
    }
    true
}

/// Whether a word is one of the given keys
pub fn is_key(w: &Vec<char>, keys: &Vec<Vec<char>>) -> (r: bool)
    ensures
        r == keys@.map_values(|k: Vec<char>| k@).contains(w@),
{
    let mut i: usize = 0;
    while i < keys.len()
        invariant
            0 <= i <= keys.len(),
            forall|j: int| 0 <= j < i ==> keys@[j]@ != w@,
        decreases keys.len() - i,
    {
        if word_eq(&keys[i], w) {
            proof {
                assert(keys@.map_values(|k: Vec<char>| k@)[i as int] == w@);
            }
            return true;
        }
        i = i + 1;
    }
    proof {
        if keys@.map_values(|k: Vec<char>| k@).contains(w@) {
            let ks = keys@.map_values(|k: Vec<char>| k@);
            let j = choose|j: int| 0 <= j < ks.len() && #[trigger] ks[j] == w@;
            assert(keys@[j]@ == w@);
        }
    }
    false
}

/// Whether two words are equal
pub fn word_eq(a: &Vec<char>, b: &Vec<char>) -> (r: bool)
    ensures
        r == (a@ == b@),
{
    if a.len() != b.len() {
        return false;
    }
    let mut i: usize = 0;
    while i < a.len()
        invariant
            0 <= i <= a.len(),
            a@.len() == b@.len(),
            forall|j: int| 0 <= j < i ==> a@[j] == b@[j],
        decreases a.len() - i,
    {
        if a[i] != b[i] {
            return false;
        }
        i = i + 1;
    }
    proof {
        assert(a@ =~= b@);
    }
    true
}

} // verus!
