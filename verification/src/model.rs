//! What the main window shows, and how it changes with what happens to it.
//!
//! The window's own work, picking files, opening them and drawing, is its
//! caller's. The model says what follows from each message, and hands back
//! what the caller is to do next.

use vstd::prelude::*;

verus! {

/// The tab of the main area that is open.
#[derive(Debug, Clone, Copy, PartialEq, Eq, Structural)]
pub enum MainTab {
    ImageView,
    RepresentativeColors,
    ColorHistgrams,
}

impl Default for MainTab {
    /// A window opens on the image view.
    fn default() -> (tab: MainTab)
        ensures
            tab == MainTab::ImageView,
    {
        MainTab::ImageView
    }
}

/// What is known of a file that was picked. `P` is the path of a file and
/// `I` an opened picture.
#[derive(Debug, Clone)]
pub enum ImgFileStatus<P, I> {
    /// The file is being opened.
    Loading(P),
    /// The file holds no picture; the text says why.
    NotImage(P, String),
    /// The file could not be read; the text says why.
    IOerror(P, String),
    /// The file was opened.
    Image(I),
}

/// What happened to the window.
#[derive(Debug)]
pub enum Message<P, I> {
    /// The button that adds pictures was pressed.
    AddImageClicked,
    /// A tab was chosen.
    TabSelected(MainTab),
    /// Files were picked.
    FilesPicked(Vec<P>),
    /// The file at an index of the list was opened, or could not be.
    FileOpened((ImgFileStatus<P, I>, usize)),
    /// The expression is to be evaluated.
    EvalExprRequested,
}

/// What the caller is to do after a message.
#[derive(Debug, Clone, Copy, PartialEq, Eq, Structural)]
pub enum Command {
    /// Nothing.
    Nothing,
    /// Let the user pick files, and report them with `FilesPicked`.
    PickFiles,
    /// Open the files at the `count` indices of the list from `first` on, and
    /// report each with `FileOpened`.
    OpenFiles { first: usize, count: usize },
}

/// The state of the main window.
#[derive(Debug)]
pub struct CicaModel<P, I> {
    loading_files_count: usize,
    images: Vec<ImgFileStatus<P, I>>,
    active_main_tab: MainTab,
}

/// The number of files in a list that are being opened.
pub open spec fn loading_count<P, I>(images: Seq<ImgFileStatus<P, I>>) -> nat
    decreases images.len(),
{
    if images.len() == 0 {
        0
    } else if images.last() is Loading {
        loading_count(images.drop_last()) + 1
    } else {
        loading_count(images.drop_last())
    }
}

/// A list of files that are all being opened, with the paths `paths`.
pub open spec fn all_loading<P, I>(paths: Seq<P>) -> Seq<ImgFileStatus<P, I>> {
    Seq::new(paths.len(), |i: int| ImgFileStatus::Loading(paths[i]))
}

/// No more files of a list are being opened than the list holds.
proof fn lemma_loading_count_is_bounded<P, I>(images: Seq<ImgFileStatus<P, I>>)
    ensures
        loading_count(images) <= images.len(),
    decreases images.len(),
{
    if images.len() > 0 {
        lemma_loading_count_is_bounded(images.drop_last());
    }
}

/// Putting another status in a place of the list changes the number of files
/// being opened by what the two statuses differ in.
proof fn lemma_loading_count_of_update<P, I>(
    images: Seq<ImgFileStatus<P, I>>,
    idx: int,
    status: ImgFileStatus<P, I>,
)
    requires
        0 <= idx < images.len(),
    ensures
        loading_count(images.update(idx, status)) + (if images[idx] is Loading {
            1nat
        } else {
            0nat
        }) == loading_count(images) + (if status is Loading {
            1nat
        } else {
            0nat
        }),
    decreases images.len(),
{
    let changed = images.update(idx, status);
    if idx == images.len() - 1 {
        assert(changed.drop_last() =~= images.drop_last());
    } else {
        assert(changed.drop_last() =~= images.drop_last().update(idx, status));
        lemma_loading_count_of_update(images.drop_last(), idx, status);
    }
}

impl<P, I> CicaModel<P, I> {
    /// The files that were picked, in the order they were picked in.
    pub closed spec fn view_images(&self) -> Seq<ImgFileStatus<P, I>> {
        self.images@
    }

    /// The number of files that are being opened.
    pub closed spec fn view_loading(&self) -> usize {
        self.loading_files_count
    }

    /// The tab that is open.
    pub closed spec fn view_tab(&self) -> MainTab {
        self.active_main_tab
    }

    /// The count of the files being opened is the number of them in the
    /// list. Every model keeps this.
    #[verifier::type_invariant]
    pub open spec fn wf(&self) -> bool {
        self.view_loading() == loading_count(self.view_images())
    }

    /// A window without files, open on the image view.
    pub fn new() -> (model: Self)
        ensures
            model.view_images() == Seq::<ImgFileStatus<P, I>>::empty(),
            model.view_loading() == 0,
            model.view_tab() == MainTab::ImageView,
    {
        CicaModel { loading_files_count: 0, images: Vec::new(), active_main_tab: MainTab::ImageView }
    }

    /// The files that were picked.
    pub fn images(&self) -> (images: &Vec<ImgFileStatus<P, I>>)
        ensures
            images@ == self.view_images(),
    {
        &self.images
    }

    /// The number of files that are being opened.
    pub fn loading_files_count(&self) -> (count: usize)
        ensures
            count == self.view_loading(),
            count == loading_count(self.view_images()),
    {
        proof {
            use_type_invariant(self);
        }
        self.loading_files_count
    }

    /// The tab that is open.
    pub fn active_main_tab(&self) -> (tab: MainTab)
        ensures
            tab == self.view_tab(),
    {
        self.active_main_tab
    }

    /// Whether the list has a file at `idx` that is being opened.
    pub fn is_loading(&self, idx: usize) -> (b: bool)
        ensures
            b == (idx < self.view_images().len() && self.view_images()[idx as int] is Loading),
    {
        if idx < self.images.len() {
            match &self.images[idx] {
                ImgFileStatus::Loading(_) => true,
                _ => false,
            }
        } else {
            false
        }
    }

    /// A report on the file at `idx` can be taken: the file is being opened,
    /// and the report is not that it still is.
    pub open spec fn awaits(&self, status: ImgFileStatus<P, I>, idx: usize) -> bool {
        &&& idx < self.view_images().len()
        &&& self.view_images()[idx as int] is Loading
        &&& !(status is Loading)
    }

    /// What `message` makes of the model `self`: the model `next` and what
    /// the caller is to do. Pressing the button asks for files to be picked.
    /// Choosing a tab opens it. Files that were picked are added to the list
    /// as being opened, in their order, and are to be opened. A report on a
    /// file takes its place in the list, and one file less is being opened.
    pub open spec fn leads_to(&self, message: Message<P, I>, next: Self, command: Command) -> bool {
        match message {
            Message::AddImageClicked => {
                &&& next.view_images() == self.view_images()
                &&& next.view_tab() == self.view_tab()
                &&& command == Command::PickFiles
            },
            Message::TabSelected(tab) => {
                &&& next.view_images() == self.view_images()
                &&& next.view_tab() == tab
                &&& command == Command::Nothing
            },
            Message::FilesPicked(paths) => {
                &&& next.view_images() == self.view_images() + all_loading::<P, I>(paths@)
                &&& next.view_loading() == self.view_loading() + paths.len()
                &&& next.view_tab() == self.view_tab()
                &&& command == (Command::OpenFiles {
                    first: self.view_images().len() as usize,
                    count: paths.len(),
                })
            },
            Message::FileOpened((status, idx)) => {
                &&& next.view_images() == self.view_images().update(idx as int, status)
                &&& next.view_loading() == self.view_loading() - 1
                &&& next.view_tab() == self.view_tab()
                &&& command == Command::Nothing
            },
            Message::EvalExprRequested => {
                &&& next.view_images() == self.view_images()
                &&& next.view_tab() == self.view_tab()
                &&& command == Command::Nothing
            },
        }
    }
}

/// Takes a message and says what the model becomes and what the caller is to
/// do next.
pub fn update<P, I>(model: CicaModel<P, I>, message: Message<P, I>) -> (r: (
    CicaModel<P, I>,
    Command,
))
    requires
        message matches Message::FileOpened((status, idx)) ==> model.awaits(status, idx),
    ensures
        model.leads_to(message, r.0, r.1),
        r.0.wf(),
{
    proof {
        use_type_invariant(&model);
    }
    let CicaModel { loading_files_count, images, active_main_tab } = model;
    match message {
        Message::AddImageClicked => (
            CicaModel { loading_files_count, images, active_main_tab },
            Command::PickFiles,
        ),
        Message::TabSelected(tab) => (
            CicaModel { loading_files_count, images, active_main_tab: tab },
            Command::Nothing,
        ),
        Message::FilesPicked(paths) => {
            let first = images.len();
            let count = paths.len();
            let ghost before = images@;
            let ghost picked = paths@;
            let mut paths = paths;
            let mut stack: Vec<P> = Vec::new();
            while paths.len() > 0
                invariant
                    paths.len() + stack.len() == picked.len(),
                    paths@ == picked.take(paths.len() as int),
                    forall|j: int|
                        0 <= j < stack.len() ==> stack[j] == picked[picked.len() - 1 - j],
                decreases paths.len(),
            {
                let path = paths.pop().unwrap();
                stack.push(path);
            }
            let mut images = images;
            let mut loading = loading_files_count;
            while stack.len() > 0
                invariant
                    stack.len() <= picked.len(),
                    forall|j: int|
                        0 <= j < stack.len() ==> stack[j] == picked[picked.len() - 1 - j],
                    images@ == before + all_loading::<P, I>(
                        picked.take(picked.len() - stack.len()),
                    ),
                    loading == loading_count(images@),
                    loading == loading_files_count + picked.len() - stack.len(),
                decreases stack.len(),
            {
                let ghost so_far = images@;
                let ghost done = picked.len() - stack.len();
                let path = stack.pop().unwrap();
                images.push(ImgFileStatus::Loading(path));
                let held = images.len();
                proof {
                    assert(images@.drop_last() =~= so_far);
                    assert(loading_count(images@) == loading + 1);
                    lemma_loading_count_is_bounded(images@);
                    assert(loading < held);
                    assert(picked.take(done + 1) =~= picked.take(done).push(picked[done]));
                    assert(images@ =~= before + all_loading::<P, I>(picked.take(done + 1)));
                }
                loading = loading + 1;
            }
            proof {
                assert(picked.take(picked.len() as int) =~= picked);
            }
            (
                CicaModel { loading_files_count: loading, images, active_main_tab },
                Command::OpenFiles { first, count },
            )
        },
        Message::FileOpened((status, idx)) => {
            let mut images = images;
            proof {
                lemma_loading_count_of_update(images@, idx as int, status);
            }
            images.set(idx, status);
            (
                CicaModel {
                    loading_files_count: loading_files_count - 1,
                    images,
                    active_main_tab,
                },
                Command::Nothing,
            )
        },
        Message::EvalExprRequested => (
            CicaModel { loading_files_count, images, active_main_tab },
            Command::Nothing,
        ),
    }
}

} // verus!
