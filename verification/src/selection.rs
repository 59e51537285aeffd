//! Which microphone is recorded.

use vstd::prelude::*;
use crate::errors::{capture_error, is_capture_error, CaptureError};
use crate::queries::optional_text;
use crate::text::{
    eq_ignore_ascii_case, joined, same_ignoring_ascii_case, same_text, trimmed, trimmed_of,
};

verus! {

/// A microphone, by the identity of its device and the name it is shown under.
pub struct MicrophoneSelection {
    pub device_id: String,
    pub display_name: String,
}

/// What a [`MicrophoneSelection`] holds.
pub struct SelectionView {
    pub device_id: Seq<char>,
    pub display_name: Seq<char>,
}

impl View for MicrophoneSelection {
    type V = SelectionView;

    open spec fn view(&self) -> SelectionView {
        SelectionView { device_id: self.device_id@, display_name: self.display_name@ }
    }
}

/// What a list of microphones holds.
pub open spec fn selections_view(sources: Seq<MicrophoneSelection>) -> Seq<SelectionView> {
    Seq::new(sources.len(), |i: int| sources[i]@)
}

/// What kind of source a session can capture.
#[derive(Debug, Clone, Copy, PartialEq, Eq, Structural)]
pub enum SourceKind {
    Application,
    OutputDevice,
    InputDevice,
    SystemMix,
}

/// A source that was discovered.
pub struct DiscoveredSource {
    pub kind: SourceKind,
    pub device_uid: Option<String>,
    pub name: String,
}

/// The microphone that a source is: none where it is no input device, or has no identity.
pub open spec fn microphone_of(source: DiscoveredSource) -> Option<SelectionView> {
    match source.device_uid {
        Some(uid) if source.kind == SourceKind::InputDevice => Some(
            SelectionView { device_id: uid@, display_name: source.name@ },
        ),
        _ => None,
    }
}

/// The microphones among the sources, in their order.
pub open spec fn microphones_of(sources: Seq<DiscoveredSource>) -> Seq<SelectionView>
    decreases sources.len(),
{
    if sources.len() == 0 {
        Seq::empty()
    } else {
        match microphone_of(sources.last()) {
            Some(microphone) => microphones_of(sources.drop_last()).push(microphone),
            None => microphones_of(sources.drop_last()),
        }
    }
}

/// Picks the microphones out of the sources that were discovered.
pub fn discovered_microphones(sources: Vec<DiscoveredSource>) -> (microphones: Vec<
    MicrophoneSelection,
>)
    ensures
        selections_view(microphones@) == microphones_of(sources@),
{
    let mut microphones: Vec<MicrophoneSelection> = Vec::new();
    let ghost all = sources@;
    assert(selections_view(microphones@) =~= microphones_of(all.take(0)));
    for source in it: sources
        invariant
            it.seq() == all,
            all == sources@,
            selections_view(microphones@) == microphones_of(all.take(it.index() as int)),
    {
        let ghost n = it.index() as int;
        let ghost before = selections_view(microphones@);
        assert(source == all[n]);
        assert(all.take(n + 1).drop_last() =~= all.take(n));
        let DiscoveredSource { kind, device_uid, name } = source;
        if let Some(device_id) = device_uid {
            if kind == SourceKind::InputDevice {
                let microphone = MicrophoneSelection { device_id, display_name: name };
                let ghost new = microphone@;
                microphones.push(microphone);
                assert(selections_view(microphones@) =~= before.push(new));
            }
        }
    }
    assert(all.take(all.len() as int) =~= all);
    microphones
}

/// Whether a microphone is the one asked for: by its exact identity where that is known, else by
/// its name, in either case, or its identity.
pub open spec fn is_asked_for(
    source: SelectionView,
    requested: Seq<char>,
    exact_device_id: Option<Seq<char>>,
) -> bool {
    match exact_device_id {
        Some(device_id) => source.device_id == device_id,
        None => same_ignoring_ascii_case(source.display_name, requested) || source.device_id
            == requested,
    }
}

/// The microphones that are asked for, in their order.
pub open spec fn asked_for(
    sources: Seq<SelectionView>,
    requested: Seq<char>,
    exact_device_id: Option<Seq<char>>,
) -> Seq<SelectionView>
    decreases sources.len(),
{
    if sources.len() == 0 {
        Seq::empty()
    } else if is_asked_for(sources.last(), requested, exact_device_id) {
        asked_for(sources.drop_last(), requested, exact_device_id).push(sources.last())
    } else {
        asked_for(sources.drop_last(), requested, exact_device_id)
    }
}

/// The characters of an optional text.
pub open spec fn optional_str(text: Option<&str>) -> Option<Seq<char>> {
    match text {
        Some(text) => Some(text@),
        None => None,
    }
}

/// What is said where not one microphone is asked for.
pub open spec fn selection_problem(found: nat, requested: Seq<char>) -> Seq<char> {
    if found == 0 {
        "no input device matches '"@ + requested + "'"@
    } else {
        "more than one input device matches '"@ + requested + "'"@
    }
}

fn matches_request(
    source: &MicrophoneSelection,
    requested: &str,
    exact_device_id: Option<&str>,
) -> (yes: bool)
    ensures
        yes == is_asked_for(source@, requested@, optional_str(exact_device_id)),
{
    match exact_device_id {
        Some(device_id) => same_text(source.device_id.as_str(), device_id),
        None => eq_ignore_ascii_case(source.display_name.as_str(), requested) || same_text(
            source.device_id.as_str(),
            requested,
        ),
    }
}

/// Selects the one microphone that is asked for. None, and more than one, is refused.
pub fn select_discovered_microphone(
    sources: Vec<MicrophoneSelection>,
    requested: &str,
    exact_device_id: Option<&str>,
) -> (result: Result<MicrophoneSelection, CaptureError>)
    ensures
        ({
            let found = asked_for(
                selections_view(sources@),
                requested@,
                optional_str(exact_device_id),
            );
            match result {
                Ok(selected) => found.len() == 1 && selected@ == found[0],
                Err(error) => found.len() != 1 && is_capture_error(
                    error,
                    "select PocketStation microphone"@,
                    selection_problem(found.len(), requested@),
                ),
            }
        }),
{
    let ghost all = selections_view(sources@);
    let ghost exact = optional_str(exact_device_id);
    let mut found: Vec<MicrophoneSelection> = Vec::new();
    assert(selections_view(found@) =~= asked_for(all.take(0), requested@, exact));
    for source in it: sources
        invariant
            it.seq() == sources@,
            all == selections_view(sources@),
            exact == optional_str(exact_device_id),
            selections_view(found@) == asked_for(
                all.take(it.index() as int),
                requested@,
                exact,
            ),
    {
        let ghost n = it.index() as int;
        let ghost before = selections_view(found@);
        assert(source@ == all[n]);
        assert(all.take(n + 1).drop_last() =~= all.take(n));
        if matches_request(&source, requested, exact_device_id) {
            let ghost new = source@;
            found.push(source);
            assert(selections_view(found@) =~= before.push(new));
        }
    }
    assert(all.take(all.len() as int) =~= all);
    assert(selections_view(found@).len() == found@.len());
    if found.len() > 1 {
        let mut problem = joined("more than one input device matches '", requested);
        problem.append("'");
        return Err(capture_error("select PocketStation microphone", problem.as_str()));
    }
    let ghost chosen = selections_view(found@);
    match found.pop() {
        Some(selected) => {
            assert(selected@ == chosen[0]);
            Ok(selected)
        },
        None => {
            let mut problem = joined("no input device matches '", requested);
            problem.append("'");
            Err(capture_error("select PocketStation microphone", problem.as_str()))
        },
    }
}

/// What a user asked for: nothing where that is white space or the default.
pub open spec fn explicit_request_of(device_override: Option<Seq<char>>) -> Option<Seq<char>> {
    match device_override {
        Some(text) => {
            let name = trimmed_of(text);
            if name.len() == 0 || same_ignoring_ascii_case(name, "default"@) {
                None
            } else {
                Some(name)
            }
        },
        None => None,
    }
}

/// Reads what a user asked for.
pub fn explicit_request(device_override: Option<&str>) -> (request: Option<String>)
    ensures
        optional_text(request) == explicit_request_of(optional_str(device_override)),
{
    match device_override {
        Some(text) => {
            let name = trimmed(text);
            if name.as_str().is_empty() || eq_ignore_ascii_case(name.as_str(), "default") {
                None
            } else {
                Some(name)
            }
        },
        None => None,
    }
}

/// The input device that the system uses by default.
pub enum DefaultInput {
    /// There is none.
    Absent,
    /// Its identity could not be read.
    Unidentified(String),
    /// Its identity.
    Known(String),
}

/// What is asked for, and by which identity; or why that is not known.
pub open spec fn wanted_microphone(
    device_override: Option<Seq<char>>,
    resolved_default_name: Seq<char>,
    default_input: DefaultInput,
) -> Result<(Seq<char>, Option<Seq<char>>), Seq<char>> {
    match explicit_request_of(device_override) {
        Some(name) => Ok((name, None)),
        None => match default_input {
            DefaultInput::Absent => Err("no default input device is available"@),
            DefaultInput::Unidentified(reason) => Err(
                "read default input device identity: "@ + reason@,
            ),
            DefaultInput::Known(id) => Ok((resolved_default_name, Some(id@))),
        },
    }
}

impl MicrophoneSelection {
    /// Resolves what a user asked for, or the system's default, among the microphones that were
    /// discovered.
    pub fn resolve(
        device_override: Option<&str>,
        resolved_default_name: &str,
        default_input: DefaultInput,
        sources: Vec<MicrophoneSelection>,
    ) -> (result: Result<MicrophoneSelection, CaptureError>)
        ensures
            match wanted_microphone(
                optional_str(device_override),
                resolved_default_name@,
                default_input,
            ) {
                Err(problem) => result matches Err(error) && is_capture_error(
                    error,
                    "select PocketStation microphone"@,
                    problem,
                ),
                Ok((requested, exact)) => {
                    let found = asked_for(selections_view(sources@), requested, exact);
                    match result {
                        Ok(selected) => found.len() == 1 && selected@ == found[0],
                        Err(error) => found.len() != 1 && is_capture_error(
                            error,
                            "select PocketStation microphone"@,
                            selection_problem(found.len(), requested),
                        ),
                    }
                },
            },
    {
        if let Some(name) = explicit_request(device_override) {
            return select_discovered_microphone(sources, name.as_str(), None);
        }
        match default_input {
            DefaultInput::Absent => Err(
                capture_error(
                    "select PocketStation microphone",
                    "no default input device is available",
                ),
            ),
            DefaultInput::Unidentified(reason) => {
                let problem = joined("read default input device identity: ", reason.as_str());
                Err(capture_error("select PocketStation microphone", problem.as_str()))
            },
            DefaultInput::Known(id) => select_discovered_microphone(
                sources,
                resolved_default_name,
                Some(id.as_str()),
            ),
        }
    }

    /// The microphone to fall back on: what the system's default resolves to now, where that is
    /// another device than the one that failed.
    pub fn recovery_fallback(
        current_device_id: Option<&str>,
        default: Result<MicrophoneSelection, CaptureError>,
    ) -> (result: Result<MicrophoneSelection, CaptureError>)
        ensures
            match result {
                Ok(fallback) => {
                    &&& default matches Ok(default) && fallback@ == default@
                    &&& current_device_id matches Some(current) && current@ != fallback@.device_id
                },
                Err(error) => {
                    &&& is_capture_error(
                        error,
                        "select PocketStation microphone fallback"@,
                        "the system default input still resolves to the failed microphone; choose another microphone to continue voice capture"@,
                    )
                    &&& default is Err || (current_device_id matches Some(current) ==> current@
                        == default->Ok_0@.device_id)
                },
            },
    {
        let default = match default {
            Ok(default) => Some(default),
            Err(_) => None,
        };
        match choose_recovery_fallback(current_device_id, default) {
            Some(fallback) => Ok(fallback),
            None => Err(
                capture_error(
                    "select PocketStation microphone fallback",
                    "the system default input still resolves to the failed microphone; choose another microphone to continue voice capture",
                ),
            ),
        }
    }
}

/// The system's default, where it is another device than the current one.
pub fn choose_recovery_fallback(
    current_device_id: Option<&str>,
    default: Option<MicrophoneSelection>,
) -> (fallback: Option<MicrophoneSelection>)
    ensures
        match (current_device_id, default) {
            (Some(current), Some(default)) => if default@.device_id != current@ {
                fallback matches Some(chosen) && chosen@ == default@
            } else {
                fallback is None
            },
            _ => fallback is None,
        },
{
    match (current_device_id, default) {
        (Some(current), Some(default)) => {
            if same_text(default.device_id.as_str(), current) {
                None
            } else {
                Some(default)
            }
        },
        _ => None,
    }
}

/// What is asked for is among the microphones: nothing is made up.
pub proof fn selections_are_among_the_sources(
    sources: Seq<SelectionView>,
    requested: Seq<char>,
    exact_device_id: Option<Seq<char>>,
    i: int,
)
    requires
        0 <= i < asked_for(sources, requested, exact_device_id).len(),
    ensures
        sources.contains(asked_for(sources, requested, exact_device_id)[i]),
        is_asked_for(
            asked_for(sources, requested, exact_device_id)[i],
            requested,
            exact_device_id,
        ),
    decreases sources.len(),
{
    let before = asked_for(sources.drop_last(), requested, exact_device_id);
    if i < before.len() {
        selections_are_among_the_sources(sources.drop_last(), requested, exact_device_id, i);
        let k = sources.drop_last().index_of(before[i]);
        assert(sources[k] == before[i]);
    } else {
        assert(sources[sources.len() - 1] == sources.last());
    }
}

} // verus!
