//! The navigation session: where the user is, what is shown, and what each
//! press of a button asks of the outside world.
//!
//! The session decides; it reads no clock and no disk. The caller hands in the
//! time of each message and carries out the [`Action`] that comes back.

use vstd::prelude::*;

verus! {

/// Two presses on one item count as a double click when less than this many
/// milliseconds lie between them.
pub const DOUBLE_CLICK_MS: u64 = 500;

/// What the user did.
pub enum Message {
    BackPressed,
    ItemPressed { name: String },
    InputChanged(String),
    SearchButtonPressed,
}

/// What the caller has to do after a message.
pub enum Action {
    /// Nothing outside the session.
    Stay,
    /// Show the volumes in place of a folder: the session is at a root.
    ShowVolumes,
    /// List the folder at the session's path and show its entries.
    ListFolder,
    /// Open the file of this name in the folder at the session's path.
    OpenFile(String),
    /// Search below the session's path for the text in the input field.
    Search,
}

/// The state of one browsing session.
pub struct Session {
    /// The folder shown, as the names that lead to it, the root first.
    pub path: Vec<String>,
    /// The names on display.
    pub file_names: Vec<String>,
    /// The text in the search field.
    pub input_value: String,
    /// The item pressed last: its position on display and its name.
    pub active_file: Option<(usize, String)>,
    /// The time of the last single click, in milliseconds of the caller's clock.
    pub last_clicked_ms: u64,
    /// Whether a search was started.
    pub searching: bool,
}

/// Position `k` is the first on display that holds `name`.
pub open spec fn is_first_named(names: Seq<String>, name: Seq<char>, k: int) -> bool {
    &&& 0 <= k < names.len()
    &&& names[k]@ == name
    &&& forall|j: int| 0 <= j < k ==> (#[trigger] names[j])@ != name
}

/// `name` is not on display.
pub open spec fn not_named(names: Seq<String>, name: Seq<char>) -> bool {
    forall|j: int| 0 <= j < names.len() ==> (#[trigger] names[j])@ != name
}

/// `selection` is what a press on `name` selects: the first position that
/// holds the name, with the name, or nothing where the name is not on display.
pub open spec fn selects(names: Seq<String>, name: Seq<char>, selection: Option<(usize, String)>) -> bool {
    match selection {
        Some((k, held)) => is_first_named(names, name, k as int) && held@ == name,
        None => not_named(names, name),
    }
}

/// The milliseconds from `earlier` to `now`; zero where the clock went back.
pub open spec fn elapsed_ms(earlier: u64, now: u64) -> int {
    if now >= earlier {
        now - earlier
    } else {
        0
    }
}

impl Session {
    /// A session at `path` that shows `file_names`, with nothing selected.
    pub fn new(path: Vec<String>, file_names: Vec<String>, now_ms: u64) -> (session: Session)
        ensures
            session.path == path,
            session.file_names == file_names,
            session.input_value@ == Seq::<char>::empty(),
            session.active_file is None,
            session.last_clicked_ms == now_ms,
            !session.searching,
    {
        Session {
            path,
            file_names,
            input_value: String::new(),
            active_file: None,
            last_clicked_ms: now_ms,
            searching: false,
        }
    }

    /// A press on `name` at `now_ms` is the second press of a double click:
    /// it selects what is selected already, soon enough after the first.
    pub open spec fn is_double_click(self, name: Seq<char>, now_ms: u64) -> bool {
        &&& selects(self.file_names@, name, self.active_file)
        &&& elapsed_ms(self.last_clicked_ms, now_ms) < DOUBLE_CLICK_MS
    }

    /// Whether the session stands at a root, from which no step leads up.
    pub open spec fn at_root(self) -> bool {
        self.path@.len() <= 1
    }

    /// The first position on display that holds `name`.
    fn find_name(&self, name: &String) -> (found: Option<usize>)
        ensures
            match found {
                Some(k) => is_first_named(self.file_names@, name@, k as int),
                None => not_named(self.file_names@, name@),
            },
    {
        let mut i: usize = 0;
        while i < self.file_names.len()
            invariant
                i <= self.file_names.len(),
                forall|j: int| 0 <= j < i ==> (#[trigger] self.file_names@[j])@ != name@,
            decreases self.file_names.len() - i,
        {
            if self.file_names[i] == *name {
                return Some(i);
            }
            i += 1;
        }
        None
    }

    /// Whether a press on `name` at `now_ms` completes a double click.
    fn completes_double_click(&self, name: &String, found: Option<usize>, now_ms: u64) -> (yes: bool)
        requires
            match found {
                Some(k) => is_first_named(self.file_names@, name@, k as int),
                None => not_named(self.file_names@, name@),
            },
        ensures
            yes == self.is_double_click(name@, now_ms),
    {
        let soon = now_ms < self.last_clicked_ms || now_ms - self.last_clicked_ms
            < DOUBLE_CLICK_MS;
        let same = match (&self.active_file, found) {
            (Some(active), Some(k)) => active.0 == k && active.1 == *name,
            (None, None) => true,
            _ => false,
        };
        soon && same
    }

    /// Takes one message of the user at time `now_ms` and says what is to be
    /// done outside. `is_dir` tells whether `name` in the folder shown is a
    /// directory; it is read only for a double click.
    ///
    /// Back leaves the last name off the path and asks for that folder; at a
    /// root it keeps the path and asks for the volumes. A first press selects
    /// the item and notes the time. A double click clears the selection and
    /// either enters the directory or asks to open the file, the path kept.
    /// A change of the input is stored. The search button asks for a search.
    pub fn update(&mut self, message: Message, now_ms: u64, is_dir: bool) -> (action: Action)
        ensures
            match message {
                Message::BackPressed => {
                    &&& *final(self) == (Session { path: final(self).path, ..*old(self) })
                    &&& if old(self).at_root() {
                        final(self).path@ == old(self).path@ && action is ShowVolumes
                    } else {
                        final(self).path@ == old(self).path@.drop_last() && action is ListFolder
                    }
                },
                Message::ItemPressed { name } => {
                    if old(self).is_double_click(name@, now_ms) {
                        &&& *final(self) == (Session {
                            path: final(self).path,
                            active_file: None,
                            ..*old(self)
                        })
                        &&& if is_dir {
                            final(self).path@ == old(self).path@.push(name) && action is ListFolder
                        } else {
                            final(self).path@ == old(self).path@ && action == Action::OpenFile(
                                name,
                            )
                        }
                    } else {
                        &&& *final(self) == (Session {
                            active_file: final(self).active_file,
                            last_clicked_ms: now_ms,
                            ..*old(self)
                        })
                        &&& selects(old(self).file_names@, name@, final(self).active_file)
                        &&& action is Stay
                    }
                },
                Message::InputChanged(value) => {
                    &&& *final(self) == (Session { input_value: value, ..*old(self) })
                    &&& action is Stay
                },
                Message::SearchButtonPressed => {
                    &&& *final(self) == (Session { searching: true, ..*old(self) })
                    &&& action is Search
                },
            },
    {
        match message {
            Message::BackPressed => {
                if self.path.len() <= 1 {
                    Action::ShowVolumes
                } else {
                    self.path.pop();
                    Action::ListFolder
                }
            },
            Message::ItemPressed { name } => {
                let found = self.find_name(&name);
                if self.completes_double_click(&name, found, now_ms) {
                    self.active_file = None;
                    if is_dir {
                        self.path.push(name);
                        Action::ListFolder
                    } else {
                        Action::OpenFile(name)
                    }
                } else {
                    self.active_file = match found {
                        Some(k) => Some((k, name)),
                        None => None,
                    };
                    self.last_clicked_ms = now_ms;
                    Action::Stay
                }
            },
            Message::InputChanged(value) => {
                self.input_value = value;
                Action::Stay
            },
            Message::SearchButtonPressed => {
                self.searching = true;
                Action::Search
            },
        }
    }

    /// Shows `names` in place of what was on display.
    pub fn show(&mut self, names: Vec<String>)
        ensures
            *final(self) == (Session { file_names: names, ..*old(self) }),
    {
        self.file_names = names;
    }
}

} // verus!
