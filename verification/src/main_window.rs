//! The window of the graphical front end: what it holds, what each message
//! does to it, and what it asks its surroundings to do.

use vstd::prelude::*;
use crate::chars::{decimal, has_at, push_decimal, texts, to_chars};

verus! {

/// What the window holds.
pub struct MainWindow {
    /// The headers that wait to be processed.
    pub files: Vec<String>,
    /// The name of the encoding of the headers.
    pub encoding: Option<String>,
    /// The directory that takes the documents.
    pub output_directory: String,
    /// Whether headers are being processed.
    pub processing: bool,
    /// How many reports of progress have come, and how many headers were
    /// handed out.
    pub progress: (usize, usize),
}

/// What the window holds, as sequences.
pub struct WindowView {
    pub files: Seq<Seq<char>>,
    pub encoding: Option<Seq<char>>,
    pub output_directory: Seq<char>,
    pub processing: bool,
    pub progress: (nat, nat),
}

impl View for MainWindow {
    type V = WindowView;

    open spec fn view(&self) -> WindowView {
        WindowView {
            files: texts(self.files@),
            encoding: match self.encoding {
                Some(e) => Some(e@),
                None => None,
            },
            output_directory: self.output_directory@,
            processing: self.processing,
            progress: (self.progress.0 as nat, self.progress.1 as nat),
        }
    }
}

/// What happens to the window.
#[derive(Debug)]
pub enum Message {
    /// The button that opens the file dialog was pressed.
    OpenFileButtonClick,
    /// The file dialog was closed, with the files that were picked.
    FilesPicked(Option<Vec<String>>),
    /// An encoding was picked from the list.
    PickList(String),
    /// The button that starts the processing was pressed.
    ProccessButtonClick,
    /// The button that opens the directory dialog was pressed.
    SaveDirectoryButtonClick,
    /// The directory dialog was closed, with the directory that was picked.
    DirectoryPicked(Option<String>),
    /// A header was processed, or, with the flag set, all of them were.
    ProgressChanged((String, bool)),
}

/// A message, as sequences.
pub enum MessageView {
    OpenFileButtonClick,
    FilesPicked(Option<Seq<Seq<char>>>),
    PickList(Seq<char>),
    ProccessButtonClick,
    SaveDirectoryButtonClick,
    DirectoryPicked(Option<Seq<char>>),
    ProgressChanged((Seq<char>, bool)),
}

impl View for Message {
    type V = MessageView;

    open spec fn view(&self) -> MessageView {
        match self {
            Message::OpenFileButtonClick => MessageView::OpenFileButtonClick,
            Message::FilesPicked(Some(files)) => MessageView::FilesPicked(Some(texts(files@))),
            Message::FilesPicked(None) => MessageView::FilesPicked(None),
            Message::PickList(name) => MessageView::PickList(name@),
            Message::ProccessButtonClick => MessageView::ProccessButtonClick,
            Message::SaveDirectoryButtonClick => MessageView::SaveDirectoryButtonClick,
            Message::DirectoryPicked(Some(directory)) => MessageView::DirectoryPicked(
                Some(directory@),
            ),
            Message::DirectoryPicked(None) => MessageView::DirectoryPicked(None),
            Message::ProgressChanged((item, finished)) => MessageView::ProgressChanged(
                (item@, *finished),
            ),
        }
    }
}

impl Clone for Message {
    fn clone(&self) -> (copy: Message)
        ensures
            copy@ == self@,
    {
        match self {
            Message::OpenFileButtonClick => Message::OpenFileButtonClick,
            Message::FilesPicked(Some(files)) => Message::FilesPicked(Some(copy_of(files))),
            Message::FilesPicked(None) => Message::FilesPicked(None),
            Message::PickList(name) => Message::PickList(name.clone()),
            Message::ProccessButtonClick => Message::ProccessButtonClick,
            Message::SaveDirectoryButtonClick => Message::SaveDirectoryButtonClick,
            Message::DirectoryPicked(Some(directory)) => Message::DirectoryPicked(
                Some(directory.clone()),
            ),
            Message::DirectoryPicked(None) => Message::DirectoryPicked(None),
            Message::ProgressChanged((item, finished)) => Message::ProgressChanged(
                (item.clone(), *finished),
            ),
        }
    }
}

/// What the window asks its surroundings to do after a message.
pub enum Action {
    /// Nothing.
    Nothing,
    /// Show the file dialog and report with `FilesPicked`.
    PickFiles,
    /// Show the directory dialog and report with `DirectoryPicked`.
    PickDirectory,
    /// Process the files into the directory, reading them in the encoding,
    /// and report each with `ProgressChanged`.
    Process { files: Vec<String>, output_directory: String, encoding: String },
}

/// An action, as sequences.
pub enum ActionView {
    Nothing,
    PickFiles,
    PickDirectory,
    Process { files: Seq<Seq<char>>, output_directory: Seq<char>, encoding: Seq<char> },
}

impl View for Action {
    type V = ActionView;

    open spec fn view(&self) -> ActionView {
        match self {
            Action::Nothing => ActionView::Nothing,
            Action::PickFiles => ActionView::PickFiles,
            Action::PickDirectory => ActionView::PickDirectory,
            Action::Process { files, output_directory, encoding } => ActionView::Process {
                files: texts(files@),
                output_directory: output_directory@,
                encoding: encoding@,
            },
        }
    }
}

/// The first position from `from` on at which `item` stands in `files`, or
/// the length of `files`.
pub open spec fn position(files: Seq<Seq<char>>, item: Seq<char>, from: int) -> int
    decreases files.len() - from,
{
    if from < 0 || from >= files.len() {
        files.len() as int
    } else if files[from] == item {
        from
    } else {
        position(files, item, from + 1)
    }
}

/// `files` without the first of its entries that equals `item`.
pub open spec fn without_first(files: Seq<Seq<char>>, item: Seq<char>) -> Seq<Seq<char>> {
    let p = position(files, item, 0);
    if p < files.len() {
        files.remove(p)
    } else {
        files
    }
}

/// The count after one more report, which stops at the largest number.
pub open spec fn counted(n: nat) -> nat {
    if n < usize::MAX {
        n + 1
    } else {
        n
    }
}

/// Whether `encoding::all::encodings` lists an encoding of this name.
pub uninterp spec fn encoding_known(name: Seq<char>) -> bool;

/// The names of the encodings that `encoding::all::encodings` lists, each
/// as its `name` gives it. The list is fixed: an encoding is known exactly
/// where its name is among these.
#[verifier::external_body]
fn encoding_names() -> (names: Vec<String>)
    ensures
        forall|name: Seq<char>| #[trigger]
            encoding_known(name) <==> texts(names@).contains(name),
{
    encoding::all::encodings().iter().map(|e| e.name().to_owned()).collect()
}

/// Tells whether an encoding of this name is known.
pub fn knows_encoding(name: &String) -> (b: bool)
    ensures
        b == encoding_known(name@),
{
    let names = encoding_names();
    let mut i: usize = 0;
    while i < names.len()
        invariant
            i <= names.len(),
            forall|n: Seq<char>| #[trigger] encoding_known(n) <==> texts(names@).contains(n),
            forall|k: int| 0 <= k < i ==> texts(names@)[k] != name@,
        decreases names.len() - i,
    {
        if names[i] == *name {
            assert(texts(names@)[i as int] == name@);
            assert(texts(names@).contains(name@));
            return true;
        }
        i += 1;
    }
    false
}

/// The processing can start: an encoding is set, and it is one that is
/// known.
pub open spec fn can_start(window: WindowView) -> bool {
    match window.encoding {
        Some(name) => encoding_known(name),
        None => false,
    }
}

/// The window after `message`. The processing starts only where it can.
pub open spec fn updated(window: WindowView, message: Message) -> WindowView {
    match message {
        Message::OpenFileButtonClick => window,
        Message::FilesPicked(Some(files)) => WindowView { files: texts(files@), ..window },
        Message::FilesPicked(None) => window,
        Message::PickList(name) => WindowView { encoding: Some(name@), ..window },
        Message::ProccessButtonClick => WindowView {
            processing: true,
            progress: (0, window.files.len()),
            ..window
        },
        Message::SaveDirectoryButtonClick => window,
        Message::DirectoryPicked(Some(directory)) => WindowView {
            output_directory: directory@,
            ..window
        },
        Message::DirectoryPicked(None) => window,
        Message::ProgressChanged((item, finished)) => WindowView {
            files: without_first(window.files, item@),
            processing: window.processing && !finished,
            progress: (counted(window.progress.0), window.progress.1),
            ..window
        },
    }
}

/// What the window asks for after `message`. The processing starts only
/// where it can.
pub open spec fn requested(window: WindowView, message: Message) -> ActionView {
    match message {
        Message::OpenFileButtonClick => ActionView::PickFiles,
        Message::SaveDirectoryButtonClick => ActionView::PickDirectory,
        Message::ProccessButtonClick => ActionView::Process {
            files: window.files,
            output_directory: window.output_directory,
            encoding: window.encoding->0,
        },
        _ => ActionView::Nothing,
    }
}

/// A copy of a list of names.
fn copy_of(names: &Vec<String>) -> (copy: Vec<String>)
    ensures
        texts(copy@) == texts(names@),
{
    let mut copy: Vec<String> = Vec::new();
    let mut i: usize = 0;
    while i < names.len()
        invariant
            i <= names.len(),
            copy@.len() == i,
            forall|k: int| 0 <= k < i ==> copy@[k]@ == names@[k]@,
        decreases names.len() - i,
    {
        copy.push(names[i].clone());
        i += 1;
    }
    assert(texts(copy@) =~= texts(names@));
    copy
}

/// Computes `position` from 0.
fn find(files: &Vec<String>, item: &String) -> (p: usize)
    ensures
        p == position(texts(files@), item@, 0),
        p <= files.len(),
{
    let mut p: usize = 0;
    while p < files.len()
        invariant
            p <= files.len(),
            position(texts(files@), item@, p as int) == position(texts(files@), item@, 0),
        decreases files.len() - p,
    {
        if files[p] == *item {
            return p;
        }
        p += 1;
    }
    p
}

impl MainWindow {
    /// The window as it opens: no files, the encoding `utf-8`, no directory,
    /// nothing in progress.
    pub fn new() -> (window: MainWindow)
        ensures
            window@ == (WindowView {
                files: Seq::empty(),
                encoding: Some("utf-8"@),
                output_directory: Seq::empty(),
                processing: false,
                progress: (0, 0),
            }),
    {
        let window = MainWindow {
            files: Vec::new(),
            encoding: Some(String::from_str("utf-8")),
            output_directory: String::new(),
            processing: false,
            progress: (0, 0),
        };
        assert(window@.files =~= Seq::empty());
        window
    }

    /// The title of the window.
    pub fn title(&self) -> (title: String)
        ensures
            title@ == "Doxygen docx exporter"@,
    {
        String::from_str("Doxygen docx exporter")
    }

    /// Takes a message in: changes the window as `updated` says and asks for
    /// what `requested` says. The processing is started only with an
    /// encoding that is set and known.
    pub fn update(&mut self, message: Message) -> (action: Action)
        requires
            message is ProccessButtonClick ==> can_start(old(self)@),
        ensures
            final(self)@ == updated(old(self)@, message),
            action@ == requested(old(self)@, message),
    {
        match message {
            Message::OpenFileButtonClick => Action::PickFiles,
            Message::FilesPicked(picked) => {
                match picked {
                    Some(files) => {
                        self.files = files;
                    },
                    None => {},
                }
                Action::Nothing
            },
            Message::PickList(name) => {
                self.encoding = Some(name);
                Action::Nothing
            },
            Message::ProccessButtonClick => {
                let encoding = self.encoding.as_ref().unwrap().clone();
                self.processing = true;
                self.progress = (0, self.files.len());
                Action::Process {
                    files: copy_of(&self.files),
                    output_directory: self.output_directory.clone(),
                    encoding,
                }
            },
            Message::SaveDirectoryButtonClick => Action::PickDirectory,
            Message::DirectoryPicked(picked) => {
                match picked {
                    Some(directory) => {
                        self.output_directory = directory;
                    },
                    None => {},
                }
                Action::Nothing
            },
            Message::ProgressChanged((item, finished)) => {
                if finished {
                    self.processing = false;
                }
                let p: usize = find(&self.files, &item);
                if p < self.files.len() {
                    let ghost before = texts(self.files@);
                    self.files.remove(p);
                    assert(texts(self.files@) =~= before.remove(p as int));
                }
                if self.progress.0 < usize::MAX {
                    self.progress.0 = self.progress.0 + 1;
                }
                Action::Nothing
            },
        }
    }

    /// Takes a message in where `update` can take it: a start of the
    /// processing without an encoding that is set and known is turned away,
    /// and the window stays as it is.
    pub fn try_update(&mut self, message: Message) -> (r: Option<Action>)
        ensures
            match r {
                Some(action) => {
                    &&& message is ProccessButtonClick ==> can_start(old(self)@)
                    &&& final(self)@ == updated(old(self)@, message)
                    &&& action@ == requested(old(self)@, message)
                },
                None => {
                    &&& message is ProccessButtonClick
                    &&& !can_start(old(self)@)
                    &&& final(self)@ == old(self)@
                },
            },
    {
        if matches!(message, Message::ProccessButtonClick) {
            let known = match &self.encoding {
                Some(name) => knows_encoding(name),
                None => false,
            };
            if !known {
                return None;
            }
        }
        Some(self.update(message))
    }

    /// Whether the files and the directory may be chosen: not while headers
    /// are being processed.
    pub fn can_choose(&self) -> (b: bool)
        ensures
            b == !self@.processing,
    {
        !self.processing
    }

    /// Whether the processing may start: nothing is in progress, there are
    /// files, and the directory exists.
    pub fn can_process(&self, directory_exists: bool) -> (b: bool)
        ensures
            b == (!self@.processing && self@.files.len() > 0 && directory_exists),
    {
        !self.processing && self.files.len() > 0 && directory_exists
    }

    /// Whether reports of progress are listened for, and the progress is
    /// shown.
    pub fn listens(&self) -> (b: bool)
        ensures
            b == self@.processing,
    {
        self.processing
    }

    /// The progress in words: the two counts with a stroke between them.
    pub fn progress_text(&self) -> (s: String)
        ensures
            s@ == decimal(self@.progress.0) + "/"@ + decimal(self@.progress.1),
    {
        let mut s: String = String::new();
        push_decimal(&mut s, self.progress.0);
        s.append("/");
        push_decimal(&mut s, self.progress.1);
        assert(s@ =~= decimal(self@.progress.0) + "/"@ + decimal(self@.progress.1));
        s
    }
}

/// The message that a report from the workers becomes: a file that was
/// processed, or, when no file comes with it, the end of the processing.
pub fn progress_message(report: Option<String>) -> (message: Message)
    ensures
        match report {
            Some(file) => message matches Message::ProgressChanged((item, finished)) && item@
                == file@ && !finished,
            None => message matches Message::ProgressChanged((item, finished)) && item@.len() == 0
                && finished,
        },
{
    match report {
        Some(file) => Message::ProgressChanged((file, false)),
        None => Message::ProgressChanged((String::new(), true)),
    }
}

/// Whether the list of encodings offers the encoding of this name: every
/// one but the one that stands for a failure.
pub fn lists_encoding(name: &str) -> (b: bool)
    ensures
        b == (name@ != "error"@),
{
    let given = to_chars(name);
    let failure = to_chars("error");
    let same = given.len() == failure.len() && has_at(&given, 0, &failure);
    proof {
        if same {
            assert(given@.subrange(0, given@.len() as int) == given@);
        }
        if given@ == failure@ {
            assert(given@.subrange(0, failure@.len() as int) == failure@);
        }
    }
    !same
}

} // verus!
