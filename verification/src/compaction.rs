//! Compaction: replacing the log by a short one that says the same.
//!
//! The compacted log is a single batch record that inserts what the tables
//! now hold. It is written to a new file beside the log and then moved into
//! the log's place. The steps touch the file system, so they are taken by
//! whoever embeds the store; this module decides which step comes next and
//! what a failure means.

use crate::errors::{
    batch_failed_text, open_failed_text, promote_failed_text, remove_failed_text,
    retire_failed_text, serialize_text, writer_lock_text, Error,
};
use crate::codec::{frame_encoded, record};
use crate::names::fresh_name;
use vstd::prelude::*;

verus! {

/// How far a compaction has come: the step that is being taken.
#[derive(Clone, Copy, Debug)]
pub enum Stage {
    /// The new file is being created.
    Creating,
    /// The batch record is being written to the new file.
    Writing,
    /// The log is being renamed out of the way.
    Retiring,
    /// The new file is being renamed to the log's name. Once this is done the
    /// compaction has taken effect.
    Promoting,
    /// The old log is being removed.
    Removing,
    /// Appends are being redirected to the new file.
    Swapping,
}

/// One step of a compaction, for the embedder to take. File names are those of
/// files in the directory of the log.
#[derive(Debug)]
pub enum Step {
    /// Create an empty file of this name and open it for reading and
    /// appending.
    Create(String),
    /// Write these bytes to the new file.
    Write(Vec<u8>),
    /// Rename the log to this name.
    Retire(String),
    /// Rename the file of this name to the log's name.
    Promote(String),
    /// Remove the file of this name.
    Remove(String),
    /// Under the log's lock, let the new file take the place of the handle
    /// that appends go to.
    Swap,
}

/// A step as plain values.
pub enum StepView {
    Create(Seq<char>),
    Write(Seq<u8>),
    Retire(Seq<char>),
    Promote(Seq<char>),
    Remove(Seq<char>),
    Swap,
}

impl View for Step {
    type V = StepView;

    open spec fn view(&self) -> StepView {
        match self {
            Step::Create(name) => StepView::Create(name@),
            Step::Write(bytes) => StepView::Write(bytes@),
            Step::Retire(name) => StepView::Retire(name@),
            Step::Promote(name) => StepView::Promote(name@),
            Step::Remove(name) => StepView::Remove(name@),
            Step::Swap => StepView::Swap,
        }
    }
}

/// A compaction under way.
pub struct Compaction {
    stage: Stage,
    fresh: String,
    retired: String,
    path: String,
    name: String,
    encoded: Result<Vec<u8>, String>,
    written: usize,
}

/// A compaction as plain values.
pub struct CompactionView {
    /// The step that is being taken.
    pub stage: Stage,
    /// The name of the new file.
    pub fresh: Seq<char>,
    /// The name that the old log gets before it is removed.
    pub retired: Seq<char>,
    /// The path of the log, as error messages show it.
    pub path: Seq<char>,
    /// The name of the type of the batch, as error messages show it.
    pub name: Seq<char>,
    /// The encoded batch, or what the encoder said when it refused.
    pub encoded: Result<Seq<u8>, Seq<char>>,
    /// The length of the record, once it has been handed out to be written.
    pub written: nat,
}

impl View for Compaction {
    type V = CompactionView;

    closed spec fn view(&self) -> CompactionView {
        CompactionView {
            stage: self.stage,
            fresh: self.fresh@,
            retired: self.retired@,
            path: self.path@,
            name: self.name@,
            encoded: match self.encoded {
                Ok(payload) => Ok(payload@),
                Err(detail) => Err(detail@),
            },
            written: self.written as nat,
        }
    }
}

impl CompactionView {
    /// The compaction one stage on.
    pub open spec fn at(self, stage: Stage) -> CompactionView {
        CompactionView { stage, ..self }
    }

    /// The step to take at the stage that the compaction is in, where the
    /// batch was encoded.
    pub open spec fn step(self) -> StepView {
        match self.stage {
            Stage::Creating => StepView::Create(self.fresh),
            Stage::Writing => StepView::Write(
                match self.encoded {
                    Ok(payload) => record(payload),
                    Err(_) => Seq::empty(),
                },
            ),
            Stage::Retiring => StepView::Retire(self.retired),
            Stage::Promoting => StepView::Promote(self.fresh),
            Stage::Removing => StepView::Remove(self.retired),
            Stage::Swapping => StepView::Swap,
        }
    }

    /// The stage that follows, if one does.
    pub open spec fn following(self) -> Option<Stage> {
        match self.stage {
            Stage::Creating => Some(Stage::Writing),
            Stage::Writing => Some(Stage::Retiring),
            Stage::Retiring => Some(Stage::Promoting),
            Stage::Promoting => Some(Stage::Removing),
            Stage::Removing => Some(Stage::Swapping),
            Stage::Swapping => None,
        }
    }

    /// The message of the error when the step at this stage fails, `detail`
    /// being what the operating system or the lock said.
    pub open spec fn failure_text(self, detail: Seq<char>) -> Seq<char> {
        match self.stage {
            Stage::Creating => open_failed_text(self.path, detail),
            Stage::Writing => batch_failed_text(self.written, detail),
            Stage::Retiring => retire_failed_text(self.retired, detail),
            Stage::Promoting => promote_failed_text(self.path, detail),
            Stage::Removing => remove_failed_text(detail),
            Stage::Swapping => writer_lock_text(detail),
        }
    }
}

impl Compaction {
    /// Starts a compaction that calls its new file `fresh` and gives the old
    /// log the name `retired` before removing it. `encoded` is what encoding
    /// the batch gave, `name` the name of the batch's type and `path` the path
    /// of the log, both for error messages. Returns the compaction and its
    /// first step.
    pub fn with_names(
        fresh: String,
        retired: String,
        encoded: Result<Vec<u8>, String>,
        name: &str,
        path: &str,
    ) -> (out: (Compaction, Step))
        ensures
            out.0@ == (CompactionView {
                stage: Stage::Creating,
                fresh: fresh@,
                retired: retired@,
                path: path@,
                name: name@,
                encoded: match encoded {
                    Ok(payload) => Ok(payload@),
                    Err(detail) => Err(detail@),
                },
                written: 0,
            }),
            out.1@ == StepView::Create(fresh@),
    {
        let step = Step::Create(fresh.clone());
        let machine = Compaction {
            stage: Stage::Creating,
            fresh,
            retired,
            path: path.to_owned(),
            name: name.to_owned(),
            encoded,
            written: 0,
        };
        (machine, step)
    }

    /// Starts a compaction under two fresh random file names.
    pub fn begin(encoded: Result<Vec<u8>, String>, name: &str, path: &str) -> (out: (
        Compaction,
        Step,
    ))
        ensures
            out.0@.stage is Creating,
            out.0@.fresh.len() == 36,
            out.0@.retired.len() == 36,
            out.0@.path == path@,
            out.0@.name == name@,
            out.0@.encoded == match encoded {
                Ok(payload) => Ok::<Seq<u8>, Seq<char>>(payload@),
                Err(detail) => Err(detail@),
            },
            out.0@.written == 0,
            out.1@ == StepView::Create(out.0@.fresh),
    {
        let fresh = fresh_name();
        let retired = fresh_name();
        Compaction::with_names(fresh, retired, encoded, name, path)
    }

    /// Takes in how the step went that was handed out last, `Err` carrying
    /// what the operating system or the lock said, and hands out the next
    /// step. `Ok(None)` says that the compaction is complete. A failed step
    /// ends the compaction with the error for that step; so does a batch that
    /// did not encode, once the new file has been created.
    pub fn advance(self, outcome: Result<(), String>) -> (out: Result<
        Option<(Compaction, Step)>,
        Error,
    >)
        ensures
            match outcome {
                Err(detail) => {
                    &&& out matches Err(e)
                    &&& e.text() == self@.failure_text(detail@)
                    &&& if self@.stage is Swapping {
                        e is LockError
                    } else {
                        e is OsError
                    }
                },
                Ok(()) => match self@.following() {
                    None => out matches Ok(None),
                    Some(stage) => match self@.encoded {
                        Err(detail) if self@.stage is Creating => {
                            &&& out matches Err(e)
                            &&& e is SerializeError
                            &&& e.text() == serialize_text(self@.name, detail)
                        },
                        _ => {
                            &&& out matches Ok(Some((next, step)))
                            &&& next@ == (CompactionView {
                                written: if self@.stage is Creating {
                                    step_len(self@.at(stage).step())
                                } else {
                                    self@.written
                                },
                                ..self@.at(stage)
                            })
                            &&& step@ == self@.at(stage).step()
                        },
                    },
                },
            },
    {
        let Compaction { stage, fresh, retired, path, name, encoded, written } = self;
        match outcome {
            Err(detail) => {
                let detail = detail.as_str();
                let e = match stage {
                    Stage::Creating => Error::open_failed(path.as_str(), detail),
                    Stage::Writing => Error::batch_failed(written, detail),
                    Stage::Retiring => Error::retire_failed(retired.as_str(), detail),
                    Stage::Promoting => Error::promote_failed(path.as_str(), detail),
                    Stage::Removing => Error::remove_failed(detail),
                    Stage::Swapping => Error::writer_lock(detail),
                };
                Err(e)
            },
            Ok(()) => match stage {
                Stage::Creating => {
                    let kept: Result<Vec<u8>, String> = match &encoded {
                        Ok(payload) => Ok(payload.clone()),
                        Err(detail) => Err(detail.clone()),
                    };
                    match frame_encoded(encoded, name.as_str()) {
                        Err(e) => Err(e),
                        Ok(bytes) => {
                            let next = Compaction {
                                stage: Stage::Writing,
                                fresh,
                                retired,
                                path,
                                name,
                                encoded: kept,
                                written: bytes.len(),
                            };
                            Ok(Some((next, Step::Write(bytes))))
                        },
                    }
                },
                Stage::Writing => {
                    let step = Step::Retire(retired.clone());
                    let next = Compaction {
                        stage: Stage::Retiring,
                        fresh,
                        retired,
                        path,
                        name,
                        encoded,
                        written,
                    };
                    Ok(Some((next, step)))
                },
                Stage::Retiring => {
                    let step = Step::Promote(fresh.clone());
                    let next = Compaction {
                        stage: Stage::Promoting,
                        fresh,
                        retired,
                        path,
                        name,
                        encoded,
                        written,
                    };
                    Ok(Some((next, step)))
                },
                Stage::Promoting => {
                    let step = Step::Remove(retired.clone());
                    let next = Compaction {
                        stage: Stage::Removing,
                        fresh,
                        retired,
                        path,
                        name,
                        encoded,
                        written,
                    };
                    Ok(Some((next, step)))
                },
                Stage::Removing => {
                    let next = Compaction {
                        stage: Stage::Swapping,
                        fresh,
                        retired,
                        path,
                        name,
                        encoded,
                        written,
                    };
                    Ok(Some((next, Step::Swap)))
                },
                Stage::Swapping => Ok(None),
            },
        }
    }
}

/// The number of bytes that a step writes.
pub open spec fn step_len(step: StepView) -> nat {
    match step {
        StepView::Write(bytes) => bytes.len(),
        _ => 0,
    }
}

} // verus!
