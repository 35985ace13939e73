//! Copy instructions and the decoding of input rows into copy tasks.

use vstd::prelude::*;

verus! {

/// One copy to perform: the object `src_key` of `src_bucket` goes to
/// `dst_bucket`, under `dst_key` where one is given and under `src_key`
/// otherwise.
#[derive(Debug, PartialEq, Eq)]
pub struct CopyInstruction {
    pub src_bucket: String,
    pub src_key: String,
    pub dst_bucket: String,
    pub dst_key: Option<String>,
}

/// The text of a [`CopyInstruction`].
pub struct InstructionView {
    pub src_bucket: Seq<char>,
    pub src_key: Seq<char>,
    pub dst_bucket: Seq<char>,
    pub dst_key: Option<Seq<char>>,
}

impl View for CopyInstruction {
    type V = InstructionView;

    open spec fn view(&self) -> InstructionView {
        InstructionView {
            src_bucket: self.src_bucket@,
            src_key: self.src_key@,
            dst_bucket: self.dst_bucket@,
            dst_key: match self.dst_key {
                Some(key) => Some(key@),
                None => None,
            },
        }
    }
}

impl InstructionView {
    /// The key under which the copy is stored: the destination key where the
    /// row gave one, the source key otherwise.
    pub open spec fn destination_key(self) -> Seq<char> {
        match self.dst_key {
            Some(key) => key,
            None => self.src_key,
        }
    }

    /// The source as the row names it: bucket, a slash, key.
    pub open spec fn source_path(self) -> Seq<char> {
        self.src_bucket + seq!['/'] + self.src_key
    }
}

impl Clone for CopyInstruction {
    fn clone(&self) -> (copy: Self)
        ensures
            copy == *self,
    {
        CopyInstruction {
            src_bucket: self.src_bucket.clone(),
            src_key: self.src_key.clone(),
            dst_bucket: self.dst_bucket.clone(),
            dst_key: match &self.dst_key {
                Some(key) => Some(key.clone()),
                None => None,
            },
        }
    }
}

/// Why a row could not be decoded into an instruction.
#[derive(Debug, PartialEq, Eq)]
pub enum DecodeError {
    /// The row has neither three nor four fields.
    FieldCount { found: usize },
    /// The row could not be read as text; the reader's diagnostic is kept.
    Malformed { diagnostic: String },
}

/// The content of a [`DecodeError`].
pub enum DecodeErrorView {
    FieldCount { found: nat },
    Malformed { diagnostic: Seq<char> },
}

impl View for DecodeError {
    type V = DecodeErrorView;

    open spec fn view(&self) -> DecodeErrorView {
        match self {
            DecodeError::FieldCount { found } => DecodeErrorView::FieldCount { found: *found as nat },
            DecodeError::Malformed { diagnostic } => DecodeErrorView::Malformed {
                diagnostic: diagnostic@,
            },
        }
    }
}

impl Clone for DecodeError {
    fn clone(&self) -> (copy: Self)
        ensures
            copy == *self,
    {
        match self {
            DecodeError::FieldCount { found } => DecodeError::FieldCount { found: *found },
            DecodeError::Malformed { diagnostic } => DecodeError::Malformed {
                diagnostic: diagnostic.clone(),
            },
        }
    }
}

/// A row as the reader hands it over: its fields, or the reader's diagnostic
/// where the row could not be read.
pub type RawRow = Result<Vec<String>, String>;

/// The text of a [`RawRow`].
pub type RawRowView = Result<Seq<Seq<char>>, Seq<char>>;

/// The text of each field.
pub open spec fn field_texts(fields: Seq<String>) -> Seq<Seq<char>> {
    fields.map_values(|field: String| field@)
}

/// The text of a raw row.
pub open spec fn raw_row_view(raw: RawRow) -> RawRowView {
    match raw {
        Ok(fields) => Ok(field_texts(fields@)),
        Err(diagnostic) => Err(diagnostic@),
    }
}

/// The text of each raw row.
pub open spec fn raw_row_views(rows: Seq<RawRow>) -> Seq<RawRowView> {
    rows.map_values(|raw: RawRow| raw_row_view(raw))
}

/// What the fields of a row decode to. The fields are, in this order, the
/// source bucket, the source key, the destination bucket and, optionally, the
/// destination key; an empty fourth field stands for a missing one. Any other
/// number of fields is an error.
pub open spec fn decode_fields(fields: Seq<Seq<char>>) -> Result<InstructionView, DecodeErrorView> {
    if fields.len() == 3 || fields.len() == 4 {
        Ok(
            InstructionView {
                src_bucket: fields[0],
                src_key: fields[1],
                dst_bucket: fields[2],
                dst_key: if fields.len() == 4 && fields[3].len() > 0 {
                    Some(fields[3])
                } else {
                    None
                },
            },
        )
    } else {
        Err(DecodeErrorView::FieldCount { found: fields.len() })
    }
}

/// What a raw row decodes to: the decoding of its fields, or the reader's
/// diagnostic as a decode error.
pub open spec fn decode_raw(raw: RawRowView) -> Result<InstructionView, DecodeErrorView> {
    match raw {
        Ok(fields) => decode_fields(fields),
        Err(diagnostic) => Err(DecodeErrorView::Malformed { diagnostic }),
    }
}

/// The text of a decoding result.
pub open spec fn decoded_view(decoded: Result<CopyInstruction, DecodeError>) -> Result<
    InstructionView,
    DecodeErrorView,
> {
    match decoded {
        Ok(instruction) => Ok(instruction@),
        Err(error) => Err(error@),
    }
}

/// Decodes the fields of one row.
pub fn decode_record(fields: &Vec<String>) -> (decoded: Result<CopyInstruction, DecodeError>)
    ensures
        decoded_view(decoded) == decode_fields(field_texts(fields@)),
{
    let count: usize = fields.len();
    if count == 3 || count == 4 {
        let dst_key = if count == 4 && !fields[3].as_str().is_empty() {
            Some(fields[3].clone())
        } else {
            None
        };
        Ok(
            CopyInstruction {
                src_bucket: fields[0].clone(),
                src_key: fields[1].clone(),
                dst_bucket: fields[2].clone(),
                dst_key,
            },
        )
    } else {
        Err(DecodeError::FieldCount { found: count })
    }
}

/// The unit of work: a row number and what the row decoded to. A task whose
/// row failed to decode is kept, so that its failure is reported under its
/// row number.
#[derive(Debug, PartialEq, Eq)]
pub struct CopyTask {
    /// The number of the row among the rows read, starting at one.
    pub row: u64,
    pub instruction: Result<CopyInstruction, DecodeError>,
}

/// The content of a [`CopyTask`].
pub struct TaskView {
    pub row: nat,
    pub instruction: Result<InstructionView, DecodeErrorView>,
}

impl View for CopyTask {
    type V = TaskView;

    open spec fn view(&self) -> TaskView {
        TaskView { row: self.row as nat, instruction: decoded_view(self.instruction) }
    }
}

impl Clone for CopyTask {
    fn clone(&self) -> (copy: Self)
        ensures
            copy == *self,
    {
        CopyTask {
            row: self.row,
            instruction: match &self.instruction {
                Ok(instruction) => Ok(instruction.clone()),
                Err(error) => Err(error.clone()),
            },
        }
    }
}

/// The content of each task.
pub open spec fn task_views(tasks: Seq<CopyTask>) -> Seq<TaskView> {
    tasks.map_values(|task: CopyTask| task@)
}

/// Whether the tasks carry the row numbers one, two, three and so on, in
/// this order.
pub open spec fn rows_numbered(tasks: Seq<TaskView>) -> bool {
    forall|i: int| 0 <= i < tasks.len() ==> (#[trigger] tasks[i]).row == i + 1
}

/// Whether the tasks carry the row numbers one, two, three and so on, in
/// this order.
pub fn are_numbered(tasks: &Vec<CopyTask>) -> (numbered: bool)
    ensures
        numbered == rows_numbered(task_views(tasks@)),
{
    let mut i: usize = 0;
    while i < tasks.len()
        invariant
            i <= tasks.len(),
            forall|j: int| 0 <= j < i ==> (#[trigger] task_views(tasks@)[j]).row == j + 1,
        decreases tasks.len() - i,
    {
        if tasks[i].row != (i + 1) as u64 {
            assert(task_views(tasks@)[i as int].row != i + 1);
            return false;
        }
        i = i + 1;
    }
    true
}

/// The tasks that a sequence of raw rows stands for: the row at position `i`
/// becomes the task of row number `i + 1`.
pub open spec fn tasks_of_rows(rows: Seq<RawRowView>) -> Seq<TaskView> {
    Seq::new(rows.len(), |i: int| TaskView { row: (i + 1) as nat, instruction: decode_raw(rows[i]) })
}

/// Decodes one raw row into the task of the given row number.
pub fn decode_row(row: u64, raw: &RawRow) -> (task: CopyTask)
    ensures
        task@ == (TaskView { row: row as nat, instruction: decode_raw(raw_row_view(*raw)) }),
{
    let instruction = match raw {
        Ok(fields) => decode_record(fields),
        Err(diagnostic) => Err(DecodeError::Malformed { diagnostic: diagnostic.clone() }),
    };
    CopyTask { row, instruction }
}

/// Decodes the raw rows of an input into tasks, numbering them from one in
/// input order.
pub fn number_rows(rows: &Vec<RawRow>) -> (tasks: Vec<CopyTask>)
    ensures
        task_views(tasks@) == tasks_of_rows(raw_row_views(rows@)),
        rows_numbered(task_views(tasks@)),
        tasks@.len() == rows@.len(),
{
    let mut tasks: Vec<CopyTask> = Vec::new();
    let mut i: usize = 0;
    while i < rows.len()
        invariant
            i <= rows.len(),
            tasks@.len() == i,
            forall|j: int|
                0 <= j < i ==> (#[trigger] tasks@[j])@ == tasks_of_rows(raw_row_views(rows@))[j],
        decreases rows.len() - i,
    {
        let row: u64 = (i + 1) as u64;
        let task = decode_row(row, &rows[i]);
        tasks.push(task);
        i = i + 1;
    }
    assert(task_views(tasks@) =~= tasks_of_rows(raw_row_views(rows@)));
    tasks
}

} // verus!
