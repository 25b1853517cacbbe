//! The overlay lifecycle: a registry of display outputs, the shown/hidden
//! flag, the per-session asset selection, and the directives that the
//! surrounding event loop must carry out after each event.
//!
//! The controller performs no input or output itself. A timer tick calls
//! `toggle`; the display layer's events call `output_added`,
//! `output_removed` and `configured`; each call records the new state and
//! returns what the event loop must now do.

use vstd::prelude::*;

verus! {

/// One registered display output: its identity and the latest geometry
/// the display layer announced (zero until first configured).
#[derive(Clone, Copy, PartialEq, Eq, Structural, Debug)]
pub struct OutputEntry {
    pub id: u64,
    pub width: u32,
    pub height: u32,
    pub configured: bool,
}

/// The image and audio chosen for one shown session.
#[derive(Clone, Debug)]
pub struct Selection {
    pub image_path: String,
    pub audio_path: String,
}

/// Spec-level picture of a selection: the two paths as character
/// sequences.
pub struct SelModel {
    pub image: Seq<char>,
    pub audio: Seq<char>,
}

impl View for Selection {
    type V = SelModel;

    open spec fn view(&self) -> SelModel {
        SelModel { image: self.image_path@, audio: self.audio_path@ }
    }
}

/// Spec-level picture of an optional selection.
pub open spec fn sel_view(p: Option<Selection>) -> Option<SelModel> {
    match p {
        Option::Some(s) => Option::Some(s@),
        Option::None => Option::None,
    }
}

/// One thing the event loop must do, in the order returned.
#[derive(Clone, Copy, PartialEq, Eq, Structural, Debug)]
pub enum Directive {
    /// Create and commit a bare surface for a newly registered output.
    InitSurface { id: u64 },
    /// Ask the display layer for a fresh full-size configure of this
    /// output.
    RequestConfigure { id: u64 },
    /// Stop the shared audio sink.
    StopAudio,
    /// Detach this output's buffer and shrink its surface to nothing.
    ClearSurface { id: u64 },
}

/// What to do in response to a configure event.
pub enum ConfigurePlan {
    /// The configured output is not registered; nothing to do.
    UnknownOutput,
    /// Hidden: the geometry is recorded, nothing is painted or shown.
    Recorded,
    /// Shown: composite the session image on a canvas of this size,
    /// attach it, and start the session audio if it is given here.
    Render { width: u32, height: u32, image_path: String, play_audio: Option<String> },
}

/// Spec-level picture of a configure plan.
pub enum PlanModel {
    UnknownOutput,
    Recorded,
    Render { width: u32, height: u32, image: Seq<char>, play_audio: Option<Seq<char>> },
}

impl View for ConfigurePlan {
    type V = PlanModel;

    open spec fn view(&self) -> PlanModel {
        match self {
            ConfigurePlan::UnknownOutput => PlanModel::UnknownOutput,
            ConfigurePlan::Recorded => PlanModel::Recorded,
            ConfigurePlan::Render { width, height, image_path, play_audio } => PlanModel::Render {
                width: *width,
                height: *height,
                image: image_path@,
                play_audio: match play_audio {
                    Option::Some(p) => Option::Some(p@),
                    Option::None => Option::None,
                },
            },
        }
    }
}

/// Spec-level picture of the controller.
pub struct CtrlModel {
    pub outputs: Seq<OutputEntry>,
    pub shown: bool,
    pub selection: Option<SelModel>,
    pub audio_playing: bool,
}

/// Whether some registered output has this identity.
pub open spec fn has_output(s: CtrlModel, id: u64) -> bool {
    exists|i: int| 0 <= i < s.outputs.len() && s.outputs[i].id == id
}

/// Index of the registered output with this identity; meaningful when the
/// controller is well formed, where it is unique.
pub open spec fn output_index(s: CtrlModel, id: u64) -> int {
    choose|i: int| 0 <= i < s.outputs.len() && s.outputs[i].id == id
}

/// Well-formedness: output identities are unique; nothing is selected or
/// playing while hidden; audio plays only out of a selection.
pub open spec fn wf(s: CtrlModel) -> bool {
    &&& forall|i: int, j: int|
        0 <= i < j < s.outputs.len() ==> s.outputs[i].id != s.outputs[j].id
    &&& !s.shown ==> s.selection is None && !s.audio_playing
    &&& s.audio_playing ==> s.selection is Some
}

/// State after a timer tick: the flag flips; hiding also drops the
/// session selection and marks audio stopped.
pub open spec fn toggle_next(s: CtrlModel) -> CtrlModel {
    if s.shown {
        CtrlModel { shown: false, selection: Option::None, audio_playing: false, ..s }
    } else {
        CtrlModel { shown: true, ..s }
    }
}

/// Directives of a timer tick. Hiding: stop the shared audio once, then
/// clear every output's surface. Showing: ask every output for a fresh
/// full-size configure; painting and audio follow from the configure
/// events that answer.
pub open spec fn toggle_directives(s: CtrlModel) -> Seq<Directive> {
    if s.shown {
        seq![Directive::StopAudio] + Seq::new(
            s.outputs.len(),
            |i: int| Directive::ClearSurface { id: s.outputs[i].id },
        )
    } else {
        Seq::new(s.outputs.len(), |i: int| Directive::RequestConfigure { id: s.outputs[i].id })
    }
}

/// State after the display layer configures output `id` at the given
/// size: the geometry is recorded; while shown, the session selection is
/// fixed (taking `pick` if none is held yet) and audio counts as playing.
pub open spec fn configured_next(
    s: CtrlModel,
    id: u64,
    width: u32,
    height: u32,
    pick: Option<SelModel>,
) -> CtrlModel {
    if !has_output(s, id) {
        s
    } else {
        let entry = OutputEntry { id, width, height, configured: true };
        let s1 = CtrlModel { outputs: s.outputs.update(output_index(s, id), entry), ..s };
        if !s.shown {
            s1
        } else {
            CtrlModel {
                selection: if s.selection is Some {
                    s.selection
                } else {
                    pick
                },
                audio_playing: true,
                ..s1
            }
        }
    }
}

/// Plan returned for a configure event: render at the new size while
/// shown, starting audio exactly when none plays yet; merely record the
/// geometry while hidden.
pub open spec fn configured_plan(
    s: CtrlModel,
    id: u64,
    width: u32,
    height: u32,
    pick: Option<SelModel>,
) -> PlanModel {
    if !has_output(s, id) {
        PlanModel::UnknownOutput
    } else if !s.shown {
        PlanModel::Recorded
    } else {
        let sel = if s.selection is Some {
            s.selection.unwrap()
        } else {
            pick.unwrap()
        };
        PlanModel::Render {
            width,
            height,
            image: sel.image,
            play_audio: if s.audio_playing {
                Option::None
            } else {
                Option::Some(sel.audio)
            },
        }
    }
}

/// The overlay state machine.
pub struct OverlayController {
    pub outputs: Vec<OutputEntry>,
    pub shown: bool,
    pub selection: Option<Selection>,
    pub audio_playing: bool,
}

impl View for OverlayController {
    type V = CtrlModel;

    open spec fn view(&self) -> CtrlModel {
        CtrlModel {
            outputs: self.outputs@,
            shown: self.shown,
            selection: sel_view(self.selection),
            audio_playing: self.audio_playing,
        }
    }
}

impl OverlayController {
    /// A fresh controller: hidden, no outputs, nothing selected or
    /// playing.
    pub fn new() -> (r: Self)
        ensures
            r@.outputs.len() == 0,
            !r@.shown,
            r@.selection is None,
            !r@.audio_playing,
            wf(r@),
    {
        OverlayController {
            outputs: Vec::new(),
            shown: false,
            selection: Option::None,
            audio_playing: false,
        }
    }

    /// Whether the overlay is currently shown.
    pub fn is_shown(&self) -> (r: bool)
        ensures
            r == self@.shown,
    {
        self.shown
    }

    /// Whether a fresh session selection must be picked before rendering.
    pub fn needs_selection(&self) -> (r: bool)
        ensures
            r == (self@.selection is None),
    {
        self.selection.is_none()
    }

    /// Index of the output with this identity, if it is registered.
    fn find_output(&self, id: u64) -> (r: Option<usize>)
        requires
            wf(self@),
        ensures
            r is Some ==> has_output(self@, id) && r->0 as int == output_index(self@, id),
            r is None ==> !has_output(self@, id),
    {
        let mut i: usize = 0;
        while i < self.outputs.len()
            invariant
                wf(self@),
                i <= self.outputs.len(),
                forall|j: int| 0 <= j < i as int ==> self.outputs@[j].id != id,
            decreases self.outputs.len() - i,
        {
            if self.outputs[i].id == id {
                proof {
                    assert(self@.outputs[i as int].id == id);
                    assert(has_output(self@, id));
                    let w = output_index(self@, id);
                    assert(0 <= w < self@.outputs.len() && self@.outputs[w].id == id);
                    if w != i as int {
                        assert(self@.outputs[w].id != self@.outputs[i as int].id);
                    }
                }
                return Some(i);
            }
            i = i + 1;
        }
        None
    }

    /// Registers a newly announced output. A new output always starts
    /// bare and hidden, whatever the global flag says; it catches up at
    /// the next toggle or configure event. An identity that is already
    /// registered is left untouched.
    pub fn output_added(&mut self, id: u64) -> (r: Vec<Directive>)
        requires
            wf(old(self)@),
        ensures
            wf(final(self)@),
            has_output(old(self)@, id) ==> final(self)@ == old(self)@ && r@.len() == 0,
            !has_output(old(self)@, id) ==> final(self)@ == (CtrlModel {
                outputs: old(self)@.outputs.push(
                    OutputEntry { id, width: 0, height: 0, configured: false },
                ),
                ..old(self)@
            }) && r@ =~= seq![Directive::InitSurface { id }],
    {
        let found = self.find_output(id);
        let mut dirs: Vec<Directive> = Vec::new();
        if found.is_none() {
            self.outputs.push(OutputEntry { id, width: 0, height: 0, configured: false });
            dirs.push(Directive::InitSurface { id });
            proof {
                assert forall|i: int, j: int|
                    0 <= i < j < self@.outputs.len() implies self@.outputs[i].id
                    != self@.outputs[j].id by {
                    if j == self@.outputs.len() - 1 {
                        assert(self@.outputs[i] == old(self)@.outputs[i]);
                    }
                }
            }
        }
        dirs
    }

    /// Drops a departed output from the registry; its identity is free to
    /// reappear later.
    pub fn output_removed(&mut self, id: u64)
        requires
            wf(old(self)@),
        ensures
            wf(final(self)@),
            !has_output(old(self)@, id) ==> final(self)@ == old(self)@,
            has_output(old(self)@, id) ==> final(self)@ == (CtrlModel {
                outputs: old(self)@.outputs.remove(output_index(old(self)@, id)),
                ..old(self)@
            }),
    {
        let found = self.find_output(id);
        match found {
            Option::Some(i) => {
                self.outputs.remove(i);
                proof {
                    assert forall|p: int, q: int|
                        0 <= p < q < self@.outputs.len() implies self@.outputs[p].id
                        != self@.outputs[q].id by {
                        let i_ = i as int;
                        if p < i_ && q < i_ {
                            assert(self@.outputs[p] == old(self)@.outputs[p]);
                            assert(self@.outputs[q] == old(self)@.outputs[q]);
                        } else if p < i_ {
                            assert(self@.outputs[p] == old(self)@.outputs[p]);
                            assert(self@.outputs[q] == old(self)@.outputs[q + 1]);
                        } else {
                            assert(self@.outputs[p] == old(self)@.outputs[p + 1]);
                            assert(self@.outputs[q] == old(self)@.outputs[q + 1]);
                        }
                    }
                }
            },
            Option::None => {},
        }
    }

    /// One timer tick: flips between hidden and shown and returns the
    /// directives of the transition, as `toggle_directives` lays them
    /// out.
    pub fn toggle(&mut self) -> (r: Vec<Directive>)
        requires
            wf(old(self)@),
        ensures
            wf(final(self)@),
            final(self)@ == toggle_next(old(self)@),
            r@ =~= toggle_directives(old(self)@),
    {
        let mut dirs: Vec<Directive> = Vec::new();
        if self.shown {
            dirs.push(Directive::StopAudio);
            let mut i: usize = 0;
            while i < self.outputs.len()
                invariant
                    i <= self.outputs.len(),
                    dirs@.len() == 1 + i as int,
                    dirs@[0] == Directive::StopAudio,
                    forall|j: int|
                        1 <= j < dirs@.len() ==> dirs@[j] == (Directive::ClearSurface {
                            id: self.outputs@[j - 1].id,
                        }),
                decreases self.outputs.len() - i,
            {
                let id = self.outputs[i].id;
                dirs.push(Directive::ClearSurface { id });
                i = i + 1;
            }
            self.shown = false;
            self.selection = Option::None;
            self.audio_playing = false;
        } else {
            let mut i: usize = 0;
            while i < self.outputs.len()
                invariant
                    i <= self.outputs.len(),
                    dirs@.len() == i as int,
                    forall|j: int|
                        0 <= j < dirs@.len() ==> dirs@[j] == (Directive::RequestConfigure {
                            id: self.outputs@[j].id,
                        }),
                decreases self.outputs.len() - i,
            {
                let id = self.outputs[i].id;
                dirs.push(Directive::RequestConfigure { id });
                i = i + 1;
            }
            self.shown = true;
        }
        dirs
    }

    /// One configure event from the display layer: records the geometry
    /// and says what to do now, as `configured_plan` lays it out. While
    /// shown with no selection held yet, the caller must offer a freshly
    /// picked one in `pick`; it is consulted only then.
    pub fn configured(
        &mut self,
        id: u64,
        width: u32,
        height: u32,
        pick: Option<Selection>,
    ) -> (r: ConfigurePlan)
        requires
            wf(old(self)@),
            old(self)@.shown && old(self)@.selection is None ==> pick is Some,
        ensures
            wf(final(self)@),
            final(self)@ == configured_next(old(self)@, id, width, height, sel_view(pick)),
            r@ == configured_plan(old(self)@, id, width, height, sel_view(pick)),
    {
        let found = self.find_output(id);
        match found {
            Option::None => ConfigurePlan::UnknownOutput,
            Option::Some(i) => {
                self.outputs[i] = OutputEntry { id, width, height, configured: true };
                proof {
                    assert forall|p: int, q: int|
                        0 <= p < q < self@.outputs.len() implies self@.outputs[p].id
                        != self@.outputs[q].id by {
                        assert(old(self)@.outputs[p].id != old(self)@.outputs[q].id);
                        assert(old(self)@.outputs[i as int].id == id);
                    }
                }
                if !self.shown {
                    return ConfigurePlan::Recorded;
                }
                if self.needs_selection() {
                    self.selection = pick;
                }
                let (image_path, audio_path) = match &self.selection {
                    Option::Some(sel) => (sel.image_path.clone(), sel.audio_path.clone()),
                    Option::None => {
                        proof {
                            assert(false);
                        }
                        (String::new(), String::new())
                    },
                };
                let play_audio = if self.audio_playing {
                    Option::None
                } else {
                    Option::Some(audio_path)
                };
                self.audio_playing = true;
                ConfigurePlan::Render { width, height, image_path, play_audio }
            },
        }
    }
}

/// Law: a tick from hidden and the tick after it return the controller to
/// exactly the starting state: showing changes nothing but the flag, and
/// hiding clears what the session added.
pub proof fn lemma_toggle_round_trip(s: CtrlModel)
    requires
        wf(s),
        !s.shown,
    ensures
        toggle_next(toggle_next(s)) == s,
{
}

/// Law: one tick while hidden shows the overlay: no audio action and no
/// clearing, just one configure request per registered output, in
/// registry order; the (empty) selection is untouched.
pub proof fn lemma_show_tick(s: CtrlModel)
    requires
        !s.shown,
    ensures
        toggle_next(s).shown,
        toggle_next(s).selection == s.selection,
        toggle_next(s).outputs == s.outputs,
        toggle_directives(s).len() == s.outputs.len(),
        forall|i: int|
            0 <= i < s.outputs.len() ==> toggle_directives(s)[i] == (Directive::RequestConfigure {
                id: s.outputs[i].id,
            }),
{
}

/// Law: one tick while shown hides the overlay: exactly one stop-audio
/// directive, first, then exactly one clear per registered output in
/// registry order, and the selection is dropped so the next session picks
/// fresh paths.
pub proof fn lemma_hide_tick(s: CtrlModel)
    requires
        s.shown,
    ensures
        !toggle_next(s).shown,
        toggle_next(s).selection is None,
        !toggle_next(s).audio_playing,
        toggle_next(s).outputs == s.outputs,
        toggle_directives(s).len() == 1 + s.outputs.len(),
        toggle_directives(s)[0] == Directive::StopAudio,
        forall|i: int|
            1 <= i < toggle_directives(s).len() ==> toggle_directives(s)[i]
                == (Directive::ClearSurface { id: s.outputs[i - 1].id }),
        forall|i: int|
            1 <= i < toggle_directives(s).len() ==> toggle_directives(s)[i]
                != Directive::StopAudio,
{
}

/// Law: audio starts exactly once per shown session: the first configure
/// answered while shown starts it, and every later one, whatever its
/// output or size, does not start it again.
pub proof fn lemma_audio_once_per_session(
    s: CtrlModel,
    id: u64,
    width: u32,
    height: u32,
    pick: Option<SelModel>,
)
    requires
        wf(s),
        s.shown,
        has_output(s, id),
        s.selection is None ==> pick is Some,
    ensures
        configured_next(s, id, width, height, pick).audio_playing,
        !s.audio_playing ==> (configured_plan(s, id, width, height, pick) matches
            PlanModel::Render { play_audio, .. } && play_audio is Some),
        s.audio_playing ==> (configured_plan(s, id, width, height, pick) matches
            PlanModel::Render { play_audio, .. } && play_audio is None),
{
}

/// Law: once a session holds a selection, every further configure keeps
/// it word for word and renders that same image; nothing is re-picked
/// until the overlay hides.
pub proof fn lemma_session_selection_stable(
    s: CtrlModel,
    id: u64,
    width: u32,
    height: u32,
    pick: Option<SelModel>,
)
    requires
        s.selection is Some,
    ensures
        configured_next(s, id, width, height, pick).selection == s.selection,
        s.shown && has_output(s, id) ==> (configured_plan(s, id, width, height, pick) matches
            PlanModel::Render { image, .. } && image == s.selection.unwrap().image),
{
}

} // verus!
