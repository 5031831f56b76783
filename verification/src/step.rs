//! The orchestration unit: a `Step` holds stage identity, a data-source
//! descriptor, an optional bound reader and a processor flag, and drives one
//! run through the status state machine.

use crate::item_processor::process_batch_spec;
use crate::item_processor::Process;
use crate::item_reader::batch_view;
use crate::item_reader::read_spec;
use crate::item_reader::ItemReader;
use crate::item_reader::Reader;
use crate::Read;
use vstd::prelude::*;

verus! {

/// The lifecycle position of a step: advanced monotonically by one run and
/// never rolled back within it. `Writing`, `OK` and `KO` are reserved for a
/// future writing stage and are never entered by `run`.
#[derive(Clone, Copy, Debug, PartialEq, Eq, Structural)]
pub enum Status {
    Starting,
    Reading,
    Processing,
    Writing,
    OK,
    KO,
}

/// The outcome of one run: the last-entered stage, and the decoded batch when
/// the read succeeded.
pub struct StepExecutor<T> {
    pub step_status: Status,
    pub data: Option<Vec<T>>,
}

/// A pipeline stage: identity, source descriptor, optional bound reader,
/// processor flag, and the outcome of its latest run.
pub struct Step<T> {
    pub step_id: u8,
    pub step_name: String,
    pub path: String,
    pub delimiter: String,
    pub item_reader: Option<ItemReader<T>>,
    pub item_processor: bool,
    pub executor: StepExecutor<T>,
}

/// The file text a run was given, if the caller could read the file.
pub open spec fn content_view(content: Option<&str>) -> Option<Seq<char>> {
    match content {
        Some(c) => Some(c@),
        None => None,
    }
}

/// The status and batch one run yields. With no bound reader nothing beyond
/// `Starting` is entered and no batch exists. With a bound reader the step
/// enters `Reading` and decodes the text it was given (no text, no batch);
/// when the processor is enabled and a batch exists the step enters
/// `Processing` and the batch is transformed in place.
pub open spec fn run_outcome<T: Read + Process>(step: Step<T>, content: Option<Seq<char>>) -> (
    Status,
    Option<Seq<T::V>>,
) {
    match step.item_reader {
        None => (Status::Starting, None),
        Some(_) => {
            let rd = match content {
                Some(c) => read_spec::<T>(c, step.delimiter@),
                None => None,
            };
            match rd {
                Some(batch) => if step.item_processor {
                    (Status::Processing, Some(process_batch_spec::<T>(batch)))
                } else {
                    (Status::Reading, Some(batch))
                },
                None => (Status::Reading, None),
            }
        },
    }
}

impl<T: Read + Process> Step<T> {
    /// A fresh step: identity and source set, no reader bound, processor
    /// disabled, status `Starting`, no batch.
    pub fn new(step_id: u8, step_name: &str, path: &str, delimiter: &str) -> (s: Step<T>)
        ensures
            s.step_id == step_id,
            s.step_name@ == step_name@,
            s.path@ == path@,
            s.delimiter@ == delimiter@,
            s.item_reader is None,
            s.item_processor == false,
            s.executor.step_status == Status::Starting,
            s.executor.data is None,
    {
        Step {
            step_id,
            step_name: String::from_str(step_name),
            path: String::from_str(path),
            delimiter: String::from_str(delimiter),
            item_reader: None,
            item_processor: false,
            executor: StepExecutor { step_status: Status::Starting, data: None },
        }
    }

    /// The step's numeric identity.
    pub fn step_id(&self) -> (r: &u8)
        ensures
            *r == self.step_id,
    {
        &self.step_id
    }

    /// The step's name.
    pub fn step_name(&self) -> (r: &str)
        ensures
            r@ == self.step_name@,
    {
        self.step_name.as_str()
    }

    /// The path of the step's data source.
    pub fn path(&self) -> (r: &str)
        ensures
            r@ == self.path@,
    {
        self.path.as_str()
    }

    /// The field delimiter of the step's data source.
    pub fn delimiter(&self) -> (r: &str)
        ensures
            r@ == self.delimiter@,
    {
        self.delimiter.as_str()
    }

    /// The bound reader, if any.
    pub fn item_reader(&self) -> (r: Option<&ItemReader<T>>)
        ensures
            match r {
                Some(ir) => self.item_reader == Some(*ir),
                None => self.item_reader is None,
            },
    {
        self.item_reader.as_ref()
    }

    /// Bind a reader to the step.
    pub fn set_item_reader(&mut self, item_reader: ItemReader<T>)
        ensures
            final(self).item_reader == Some(item_reader),
            final(self).step_id == old(self).step_id,
            final(self).step_name == old(self).step_name,
            final(self).path == old(self).path,
            final(self).delimiter == old(self).delimiter,
            final(self).item_processor == old(self).item_processor,
            final(self).executor == old(self).executor,
    {
        self.item_reader = Some(item_reader);
    }

    /// Enable or disable the processing stage.
    pub fn set_item_processor(&mut self, enabled: bool)
        ensures
            final(self).item_processor == enabled,
            final(self).step_id == old(self).step_id,
            final(self).step_name == old(self).step_name,
            final(self).path == old(self).path,
            final(self).delimiter == old(self).delimiter,
            final(self).item_reader == old(self).item_reader,
            final(self).executor == old(self).executor,
    {
        self.item_processor = enabled;
    }

    /// The outcome of the step's latest run.
    pub fn executor(&self) -> (r: &StepExecutor<T>)
        ensures
            *r == self.executor,
    {
        &self.executor
    }

    /// Drive one run through the state machine. The caller hands in the text
    /// of the step's data source (nothing when the file could not be read);
    /// the outcome is observable through the step's executor.
    pub fn run(&mut self, content: Option<&str>)
        ensures
            final(self).step_id == old(self).step_id,
            final(self).step_name == old(self).step_name,
            final(self).path == old(self).path,
            final(self).delimiter == old(self).delimiter,
            final(self).item_reader == old(self).item_reader,
            final(self).item_processor == old(self).item_processor,
            final(self).executor.step_status == run_outcome::<T>(
                *old(self),
                content_view(content),
            ).0,
            batch_view(final(self).executor.data) == run_outcome::<T>(
                *old(self),
                content_view(content),
            ).1,
    {
        let mut status = Status::Starting;
        let mut data: Option<Vec<T>> = None;
        if self.item_reader.is_some() {
            status = Status::Reading;
            data = match (&self.item_reader, content) {
                (Some(reader), Some(c)) => reader.read(c, self.delimiter.as_str()),
                _ => None,
            };
        }
        if self.item_processor {
            data = match data {
                Some(mut batch) => {
                    status = Status::Processing;
                    let ghost before = batch@.map_values(|t: T| t@);
                    T::process(&mut batch);
                    proof {
                        assert(batch@.map_values(|t: T| t@) =~= process_batch_spec::<T>(before));
                    }
                    Some(batch)
                },
                None => None,
            };
        }
        self.executor = StepExecutor { step_status: status, data };
    }
}

/// The state progression one run makes. With a bound reader, an enabled
/// processor and a successful read, the last-entered stage is `Processing`;
/// with a bound reader and a disabled processor it is `Reading`; with no
/// bound reader, no stage beyond `Starting` is entered.
pub proof fn lemma_state_progression<T: Read + Process>(step: Step<T>, content: Option<Seq<char>>)
    ensures
        (step.item_reader is Some && step.item_processor && (match content {
            Some(c) => read_spec::<T>(c, step.delimiter@) is Some,
            None => false,
        })) ==> run_outcome::<T>(step, content).0 == Status::Processing,
        (step.item_reader is Some && !step.item_processor) ==> run_outcome::<T>(step, content).0
            == Status::Reading,
        step.item_reader is None ==> run_outcome::<T>(step, content).0 == Status::Starting,
{
}

} // verus!
