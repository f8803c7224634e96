//! The scan of a table: which files it reads, in which partitions, and what it returns of them.

use vstd::prelude::*;

use std::sync::Arc;

use crate::arrow::schema::{ArrowSchema, ArrowSchemaView, FieldView};
use crate::error::{Error, ErrorKind, ErrorView};
use crate::expr::predicate::BoundPredicate;
use crate::table::metadata::Table;
use crate::table::schema::{entry_by_name, FieldEntry, Schema};
use crate::text::{decimal, decimal_digits, join_texts, separated, texts};

verus! {

/// A filter on the rows of a table, as it is displayed.
#[derive(Debug, PartialEq, Eq)]
pub struct Predicate {
    pub text: String,
}

impl Clone for Predicate {
    fn clone(&self) -> (r: Predicate)
        ensures
            r == *self,
    {
        Predicate { text: self.text.clone() }
    }
}

/// A range of a data file to read.
#[derive(Debug, PartialEq, Eq)]
pub struct FileScanTask {
    pub data_file_path: String,
    pub start: u64,
    pub length: u64,
    pub record_count: Option<u64>,
    /// The filter to apply to the rows of the file.
    pub predicate: Option<Arc<BoundPredicate>>,
    /// The delete files that apply to the file.
    pub deletes: Arc<Vec<String>>,
    /// The ids of the fields to read.
    pub project_field_ids: Vec<i32>,
}

/// What a [`FileScanTask`] is.
pub struct TaskView {
    pub data_file_path: Seq<char>,
    pub start: u64,
    pub length: u64,
    pub record_count: Option<u64>,
    pub predicate: Option<Arc<BoundPredicate>>,
    pub deletes: Seq<Seq<char>>,
    pub project_field_ids: Seq<i32>,
}

impl View for FileScanTask {
    type V = TaskView;

    open spec fn view(&self) -> TaskView {
        TaskView {
            data_file_path: self.data_file_path@,
            start: self.start,
            length: self.length,
            record_count: self.record_count,
            predicate: self.predicate,
            deletes: texts(self.deletes@),
            project_field_ids: self.project_field_ids@,
        }
    }
}

/// What the tasks of a list are.
pub open spec fn task_views(tasks: Seq<FileScanTask>) -> Seq<TaskView> {
    tasks.map_values(|t: FileScanTask| t@)
}

fn copy_ids(ids: &Vec<i32>) -> (r: Vec<i32>)
    ensures
        r@ == ids@,
{
    let mut out: Vec<i32> = Vec::new();
    let mut i: usize = 0;
    while i < ids.len()
        invariant
            i <= ids@.len(),
            out@ == ids@.take(i as int),
        decreases ids@.len() - i,
    {
        out.push(ids[i]);
        i += 1;
        assert(out@ =~= ids@.take(i as int));
    }
    assert(out@ =~= ids@);
    out
}

impl FileScanTask {
    /// The same range of the same file, with other fields to read.
    fn with_project_field_ids(&self, ids: &Vec<i32>) -> (r: FileScanTask)
        ensures
            r@ == (TaskView { project_field_ids: ids@, ..self@ }),
    {
        FileScanTask {
            data_file_path: self.data_file_path.clone(),
            start: self.start,
            length: self.length,
            record_count: self.record_count,
            predicate: match &self.predicate {
                Some(predicate) => Some(predicate.clone()),
                None => None,
            },
            deletes: self.deletes.clone(),
            project_field_ids: copy_ids(ids),
        }
    }
}

impl Clone for FileScanTask {
    fn clone(&self) -> (r: FileScanTask)
        ensures
            r@ == self@,
    {
        self.with_project_field_ids(&self.project_field_ids)
    }
}

/// When a plan emits its rows.
#[derive(Debug, Clone, Copy, PartialEq, Eq, Structural)]
pub enum EmissionType {
    Incremental,
    Final,
    Both,
}

/// Whether a plan emits a bounded number of rows.
#[derive(Debug, Clone, Copy, PartialEq, Eq, Structural)]
pub enum Boundedness {
    Bounded,
    Unbounded,
}

/// What the planner may know of a plan's output.
#[derive(Debug, PartialEq, Eq)]
pub struct PlanProperties {
    pub schema: ArrowSchema,
    /// The number of partitions, over which rows are spread in no known way.
    pub partitions: usize,
    pub emission: EmissionType,
    pub boundedness: Boundedness,
}

/// What a [`PlanProperties`] is.
pub struct PropertiesView {
    pub schema: ArrowSchemaView,
    pub partitions: nat,
    pub emission: EmissionType,
    pub boundedness: Boundedness,
}

impl View for PlanProperties {
    type V = PropertiesView;

    open spec fn view(&self) -> PropertiesView {
        PropertiesView {
            schema: self.schema@,
            partitions: self.partitions as nat,
            emission: self.emission,
            boundedness: self.boundedness,
        }
    }
}

/// What a scan over `files` files declares: each file is a partition of its own, and a scan over
/// none still has one partition, without rows.
pub open spec fn scan_properties(schema: ArrowSchemaView, files: nat) -> PropertiesView {
    PropertiesView {
        schema,
        partitions: if files == 0 {
            1
        } else {
            files
        },
        emission: EmissionType::Incremental,
        boundedness: Boundedness::Bounded,
    }
}

/// A scan of a table. Each [`FileScanTask`] is a partition of its own, so that the order of the
/// rows inside a file is kept.
#[derive(Debug, PartialEq, Eq)]
pub struct IcebergTableScan {
    table: Table,
    snapshot_id: Option<i64>,
    plan_properties: PlanProperties,
    projection: Option<Vec<String>>,
    predicates: Option<Predicate>,
    limit: Option<usize>,
    file_scan_tasks: Vec<FileScanTask>,
}

/// What an [`IcebergTableScan`] is.
pub struct ScanView {
    pub table: Table,
    /// The snapshot to scan; the current one where it is `None`.
    pub snapshot_id: Option<i64>,
    pub properties: PropertiesView,
    /// The columns to read, by dotted name; all of them where it is `None`.
    pub projection: Option<Seq<Seq<char>>>,
    pub predicates: Option<Predicate>,
    /// The number of rows that are wanted, where it is known.
    pub limit: Option<usize>,
    pub tasks: Seq<TaskView>,
}

/// The texts of an optional list of strings.
pub open spec fn optional_texts(strings: Option<Vec<String>>) -> Option<Seq<Seq<char>>> {
    match strings {
        Some(list) => Some(texts(list@)),
        None => None,
    }
}

impl View for IcebergTableScan {
    type V = ScanView;

    closed spec fn view(&self) -> ScanView {
        ScanView {
            table: self.table,
            snapshot_id: self.snapshot_id,
            properties: self.plan_properties@,
            projection: optional_texts(self.projection),
            predicates: self.predicates,
            limit: self.limit,
            tasks: task_views(self.file_scan_tasks@),
        }
    }
}

/// Whether a scan declares what its files and columns make of it.
pub open spec fn valid_scan(scan: ScanView) -> bool {
    scan.properties == scan_properties(scan.properties.schema, scan.tasks.len())
}

/// The names of the columns at the positions of `projection`; `None` where all are read.
pub open spec fn column_names(fields: Seq<FieldView>, projection: Option<Seq<usize>>) -> Option<
    Seq<Seq<char>>,
> {
    match projection {
        Some(indices) => Some(indices.map_values(|i: usize| fields[i as int].name)),
        None => None,
    }
}

/// The columns at the positions of `projection`; all of them where it is `None`.
pub open spec fn projected(
    schema: ArrowSchemaView,
    projection: Option<Seq<usize>>,
) -> ArrowSchemaView {
    match projection {
        Some(indices) => ArrowSchemaView {
            fields: indices.map_values(|i: usize| schema.fields[i as int]),
            metadata: schema.metadata,
        },
        None => schema,
    }
}

/// Whether every position of `projection` is that of a column.
pub open spec fn in_range(projection: Option<Seq<usize>>, columns: nat) -> bool {
    projection matches Some(indices) ==> forall|k: int|
        0 <= k < indices.len() ==> #[trigger] indices[k] < columns
}

/// The positions of an optional list.
pub open spec fn optional_indices(projection: Option<&Vec<usize>>) -> Option<Seq<usize>> {
    match projection {
        Some(indices) => Some(indices@),
        None => None,
    }
}

/// The first of `paths` that no field of a table schema is called.
pub open spec fn first_missing(entries: Seq<FieldEntry>, paths: Seq<Seq<char>>) -> Option<Seq<char>>
    decreases paths.len(),
{
    if paths.len() == 0 {
        None
    } else {
        match first_missing(entries, paths.drop_last()) {
            Some(path) => Some(path),
            None => if entry_by_name(entries, paths.last()) is None {
                Some(paths.last())
            } else {
                None
            },
        }
    }
}

/// The ids of the fields of a table schema that `paths` name.
pub open spec fn field_ids(entries: Seq<FieldEntry>, paths: Seq<Seq<char>>) -> Seq<i32> {
    paths.map_values(|path: Seq<char>| entry_by_name(entries, path)->0.id)
}

/// The error for a path that no field of the table schema is called.
pub open spec fn column_not_found(path: Seq<char>) -> ErrorView {
    ErrorView {
        kind: ErrorKind::Plan,
        message: "Column `"@ + path + "` not found in iceberg table schema"@,
    }
}

/// The scan that reads only the fields at `paths` of the same files, and declares `schema`. The
/// paths are looked up in the table's current schema; the first one that is not found is an error.
pub open spec fn nested_projection(
    scan: ScanView,
    paths: Seq<Seq<char>>,
    schema: ArrowSchemaView,
) -> Result<ScanView, ErrorView> {
    let entries = scan.table.current_entries();
    match first_missing(entries, paths) {
        Some(path) => Err(column_not_found(path)),
        None => Ok(
            ScanView {
                properties: scan_properties(schema, scan.tasks.len()),
                projection: Some(paths),
                tasks: scan.tasks.map_values(
                    |task: TaskView|
                        TaskView { project_field_ids: field_ids(entries, paths), ..task },
                ),
                ..scan
            },
        ),
    }
}

/// The notation of a scan in a displayed plan.
pub open spec fn scan_text(scan: ScanView) -> Seq<char> {
    let columns = match scan.projection {
        Some(names) => separated(names, ","@),
        None => Seq::empty(),
    };
    let predicate = match scan.predicates {
        Some(p) => p.text@,
        None => Seq::empty(),
    };
    let limit = match scan.limit {
        Some(n) => " limit:["@ + decimal_digits(n as nat) + "]"@,
        None => Seq::empty(),
    };
    "IcebergTableScan projection:["@ + columns + "] predicate:["@ + predicate + "]"@ + limit
}

/// The error for a partition other than the only one of a scan without files.
pub open spec fn scan_is_empty(partition: nat) -> ErrorView {
    ErrorView {
        kind: ErrorKind::Execution,
        message: "IcebergTableScan: requested partition "@ + decimal_digits(partition)
            + " but scan is empty"@,
    }
}

/// The names of the columns at the positions of `projection`, if there is one.
pub fn get_column_names(schema: &ArrowSchema, projection: Option<&Vec<usize>>) -> (r: Option<
    Vec<String>,
>)
    requires
        in_range(optional_indices(projection), schema@.fields.len()),
    ensures
        optional_texts(r) == column_names(schema@.fields, optional_indices(projection)),
{
    let indices: &Vec<usize> = match projection {
        Some(indices) => indices,
        None => {
            return None;
        },
    };
    let mut names: Vec<String> = Vec::new();
    let mut k: usize = 0;
    while k < indices.len()
        invariant
            k <= indices@.len(),
            names@.len() == k,
            forall|j: int|
                0 <= j < indices@.len() ==> #[trigger] indices@[j] < schema@.fields.len(),
            forall|j: int|
                0 <= j < k ==> (#[trigger] names@[j])@ == schema@.fields[indices@[j] as int].name,
        decreases indices@.len() - k,
    {
        names.push(schema.fields[indices[k]].name.clone());
        k += 1;
    }
    assert(texts(names@) =~= indices@.map_values(|i: usize| schema@.fields[i as int].name));
    Some(names)
}

/// What there is to read for a partition of a scan.
pub enum ScanPartition<'a> {
    /// No rows.
    Empty,
    /// The rows of a file; of them the first `limit`, where there is a limit.
    File { task: &'a FileScanTask, limit: Option<usize> },
}

impl IcebergTableScan {
    #[verifier::type_invariant]
    spec fn valid(self) -> bool {
        valid_scan(self@)
    }

    /// Makes the scan of `table`, with one partition for each of the `planned` files.
    ///
    /// `schema` holds all columns of the table. Of them the scan returns those at the positions of
    /// `projection`, in that order, or all of them.
    pub fn try_new(
        table: Table,
        snapshot_id: Option<i64>,
        schema: &ArrowSchema,
        projection: Option<&Vec<usize>>,
        predicates: Option<Predicate>,
        limit: Option<usize>,
        planned: Result<Vec<FileScanTask>, Error>,
    ) -> (r: Result<IcebergTableScan, Error>)
        requires
            in_range(optional_indices(projection), schema@.fields.len()),
        ensures
            match planned {
                Ok(tasks) => r matches Ok(scan) && scan@ == (ScanView {
                    table,
                    snapshot_id,
                    properties: scan_properties(
                        projected(schema@, optional_indices(projection)),
                        tasks@.len(),
                    ),
                    projection: column_names(schema@.fields, optional_indices(projection)),
                    predicates,
                    limit,
                    tasks: task_views(tasks@),
                }),
                Err(error) => r == Err::<IcebergTableScan, Error>(error),
            },
    {
        let file_scan_tasks: Vec<FileScanTask> = match planned {
            Ok(tasks) => tasks,
            Err(error) => {
                return Err(error);
            },
        };
        let output_schema: ArrowSchema = match projection {
            Some(indices) => schema.project(indices),
            None => schema.clone(),
        };
        let plan_properties: PlanProperties = Self::compute_properties(
            output_schema,
            file_scan_tasks.len(),
        );
        Ok(
            IcebergTableScan {
                table,
                snapshot_id,
                plan_properties,
                projection: get_column_names(schema, projection),
                predicates,
                limit,
                file_scan_tasks,
            },
        )
    }

    /// The table to scan.
    pub fn table(&self) -> (r: &Table)
        ensures
            *r == self@.table,
    {
        &self.table
    }

    /// The snapshot to scan; the current one where it is `None`.
    pub fn snapshot_id(&self) -> (r: Option<i64>)
        ensures
            r == self@.snapshot_id,
    {
        self.snapshot_id
    }

    /// The columns to read, by dotted name; all of them where it is `None`.
    pub fn projection(&self) -> (r: Option<&[String]>)
        ensures
            match r {
                Some(names) => self@.projection == Some(texts(names@)),
                None => self@.projection is None,
            },
    {
        match &self.projection {
            Some(names) => Some(names.as_slice()),
            None => None,
        }
    }

    /// The filter on the rows.
    pub fn predicates(&self) -> (r: Option<&Predicate>)
        ensures
            match r {
                Some(predicate) => self@.predicates == Some(*predicate),
                None => self@.predicates is None,
            },
    {
        self.predicates.as_ref()
    }

    /// The number of rows that are wanted, where it is known. With more than one partition the
    /// scan leaves the limit to a plan above it.
    pub fn limit(&self) -> (r: Option<usize>)
        ensures
            r == self@.limit,
    {
        self.limit
    }

    /// The files to read, one for each partition.
    pub fn file_scan_tasks(&self) -> (r: &[FileScanTask])
        ensures
            task_views(r@) == self@.tasks,
    {
        self.file_scan_tasks.as_slice()
    }

    /// What the planner may know of the scan's output.
    pub fn properties(&self) -> (r: &PlanProperties)
        ensures
            r@ == self@.properties,
            valid_scan(self@),
            r.partitions >= 1,
            r.partitions >= self@.tasks.len(),
            r.partitions > 1 ==> r.partitions == self@.tasks.len(),
    {
        proof {
            use_type_invariant(self);
        }
        &self.plan_properties
    }

    /// The columns that the scan returns.
    pub fn schema(&self) -> (r: &ArrowSchema)
        ensures
            r@ == self@.properties.schema,
    {
        &self.plan_properties.schema
    }

    /// The name of this kind of plan.
    pub fn name(&self) -> (r: &'static str)
        ensures
            r@ == "IcebergTableScan"@,
    {
        "IcebergTableScan"
    }

    /// The scan that reads only the fields at `dotted_paths` of the same files, and declares
    /// `narrowed_schema`, which has to be what the reader makes of those fields.
    pub fn with_nested_projection(
        &self,
        dotted_paths: Vec<String>,
        narrowed_schema: ArrowSchema,
    ) -> (r: Result<IcebergTableScan, Error>)
        ensures
            nested_projection(self@, texts(dotted_paths@), narrowed_schema@) == (match r {
                Ok(scan) => Ok::<ScanView, ErrorView>(scan@),
                Err(error) => Err::<ScanView, ErrorView>(error@),
            }),
    {
        let ghost entries = self@.table.current_entries();
        let ghost paths = texts(dotted_paths@);
        let mut ids: Vec<i32> = Vec::new();
        let mut i: usize = 0;
        assert(paths.take(0) =~= Seq::<Seq<char>>::empty());
        while i < dotted_paths.len()
            invariant
                i <= dotted_paths@.len(),
                entries == self@.table.current_entries(),
                paths == texts(dotted_paths@),
                first_missing(entries, paths.take(i as int)) is None,
                ids@ == field_ids(entries, paths.take(i as int)),
            decreases dotted_paths@.len() - i,
        {
            let ghost upto = paths.take(i + 1);
            proof {
                assert(upto.drop_last() =~= paths.take(i as int));
                assert(upto.last() == dotted_paths@[i as int]@);
            }
            let schema: &Schema = self.table.metadata().current_schema();
            match schema.field_id_by_name(dotted_paths[i].as_str()) {
                Some(id) => ids.push(id),
                None => {
                    proof {
                        lemma_first_missing(entries, paths, i as int);
                    }
                    let mut message: String = "Column `".to_owned();
                    message.append(dotted_paths[i].as_str());
                    message.append("` not found in iceberg table schema");
                    return Err(Error { kind: ErrorKind::Plan, message });
                },
            }
            assert(ids@ =~= field_ids(entries, upto));
            i += 1;
        }
        assert(paths.take(i as int) =~= paths);
        let mut new_tasks: Vec<FileScanTask> = Vec::new();
        let mut k: usize = 0;
        while k < self.file_scan_tasks.len()
            invariant
                k <= self.file_scan_tasks@.len(),
                new_tasks@.len() == k,
                forall|j: int|
                    0 <= j < k ==> (#[trigger] new_tasks@[j])@ == (TaskView {
                        project_field_ids: ids@,
                        ..self.file_scan_tasks@[j]@
                    }),
            decreases self.file_scan_tasks@.len() - k,
        {
            new_tasks.push(self.file_scan_tasks[k].with_project_field_ids(&ids));
            k += 1;
        }
        assert(task_views(new_tasks@) =~= self@.tasks.map_values(
            |task: TaskView| TaskView { project_field_ids: field_ids(entries, paths), ..task },
        ));
        let plan_properties: PlanProperties = Self::compute_properties(
            narrowed_schema,
            new_tasks.len(),
        );
        Ok(
            IcebergTableScan {
                table: self.table.clone(),
                snapshot_id: self.snapshot_id,
                plan_properties,
                projection: Some(dotted_paths),
                predicates: match &self.predicates {
                    Some(predicate) => Some(predicate.clone()),
                    None => None,
                },
                limit: self.limit,
                file_scan_tasks: new_tasks,
            },
        )
    }

    /// What a scan over `n_files` files declares. A scan over none has one partition all the
    /// same, so that there always is a first partition to execute.
    fn compute_properties(schema: ArrowSchema, n_files: usize) -> (r: PlanProperties)
        ensures
            r@ == scan_properties(schema@, n_files as nat),
    {
        let partitions: usize = if n_files == 0 {
            1
        } else {
            n_files
        };
        PlanProperties {
            schema,
            partitions,
            emission: EmissionType::Incremental,
            boundedness: Boundedness::Bounded,
        }
    }

    /// What there is to read for a partition. The limit is applied only where there is one file:
    /// with more, a number of rows for each partition says nothing of the whole.
    pub fn execute(&self, partition: usize) -> (r: Result<ScanPartition<'_>, Error>)
        requires
            self@.tasks.len() > 0 ==> partition < self@.tasks.len(),
        ensures
            match r {
                Err(error) => self@.tasks.len() == 0 && partition != 0 && error@ == scan_is_empty(
                    partition as nat,
                ),
                Ok(ScanPartition::Empty) => self@.tasks.len() == 0 && partition == 0,
                Ok(ScanPartition::File { task, limit }) => self@.tasks.len() > 0 && task@
                    == self@.tasks[partition as int] && limit == (if self@.tasks.len() == 1 {
                    self@.limit
                } else {
                    None
                }),
            },
    {
        if self.file_scan_tasks.is_empty() {
            if partition != 0 {
                let mut message: String = "IcebergTableScan: requested partition ".to_owned();
                message.append(decimal(partition).as_str());
                message.append(" but scan is empty");
                return Err(Error { kind: ErrorKind::Execution, message });
            }
            return Ok(ScanPartition::Empty);
        }
        let limit: Option<usize> = if self.file_scan_tasks.len() == 1 {
            self.limit
        } else {
            None
        };
        Ok(ScanPartition::File { task: &self.file_scan_tasks[partition], limit })
    }

    /// The notation of the scan in a displayed plan.
    pub fn fmt_as(&self) -> (r: String)
        ensures
            r@ == scan_text(self@),
    {
        let mut out: String = "IcebergTableScan projection:[".to_owned();
        match &self.projection {
            Some(names) => {
                let columns: String = join_texts(names, ",");
                out.append(columns.as_str());
            },
            None => {},
        }
        out.append("] predicate:[");
        match &self.predicates {
            Some(predicate) => {
                out.append(predicate.text.as_str());
            },
            None => {},
        }
        out.append("]");
        match self.limit {
            Some(limit) => {
                out.append(" limit:[");
                out.append(decimal(limit).as_str());
                out.append("]");
            },
            None => {},
        }
        assert(out@ =~= scan_text(self@));
        out
    }
}

/// Every partition that a scan declares can be executed. There always is a first one.
pub proof fn law_declared_partitions_can_be_executed(scan: ScanView, partition: nat)
    requires
        valid_scan(scan),
        partition < scan.properties.partitions,
    ensures
        scan.properties.partitions > 0,
        partition < scan.tasks.len() || (scan.tasks.len() == 0 && partition == 0),
{
}

/// A narrowed scan reads the same ranges of the same files of the same snapshot, with the same
/// filter, limit and partitions; of each file it reads other fields.
pub proof fn law_nested_projection_keeps_files(
    scan: ScanView,
    paths: Seq<Seq<char>>,
    schema: ArrowSchemaView,
    i: int,
)
    requires
        nested_projection(scan, paths, schema) is Ok,
        0 <= i < scan.tasks.len(),
        valid_scan(scan),
    ensures
        nested_projection(scan, paths, schema) matches Ok(next) && {
            &&& valid_scan(next)
            &&& next.table == scan.table
            &&& next.snapshot_id == scan.snapshot_id
            &&& next.predicates == scan.predicates
            &&& next.limit == scan.limit
            &&& next.properties.partitions == scan.properties.partitions
            &&& next.tasks.len() == scan.tasks.len()
            &&& next.tasks[i] == (TaskView {
                project_field_ids: next.tasks[i].project_field_ids,
                ..scan.tasks[i]
            })
        },
{
}

/// Each requested path of a narrowed scan is read from every file, under the id that the table's
/// current schema gives it.
pub proof fn law_requested_paths_are_read(
    scan: ScanView,
    paths: Seq<Seq<char>>,
    schema: ArrowSchemaView,
    i: int,
    k: int,
)
    requires
        nested_projection(scan, paths, schema) is Ok,
        0 <= i < scan.tasks.len(),
        0 <= k < paths.len(),
    ensures
        nested_projection(scan, paths, schema) matches Ok(next) && {
            &&& next.tasks[i].project_field_ids.len() == paths.len()
            &&& entry_by_name(scan.table.current_entries(), paths[k]) matches Some(entry)
            &&& next.tasks[i].project_field_ids[k] == entry.id
        },
{
    lemma_none_missing(scan.table.current_entries(), paths, k);
}

/// A scan can be narrowed to any paths that the table's current schema knows.
pub proof fn law_known_paths_can_be_read(
    scan: ScanView,
    paths: Seq<Seq<char>>,
    schema: ArrowSchemaView,
)
    requires
        forall|k: int|
            0 <= k < paths.len() ==> entry_by_name(
                scan.table.current_entries(),
                #[trigger] paths[k],
            ) is Some,
    ensures
        nested_projection(scan, paths, schema) is Ok,
    decreases paths.len(),
{
    if paths.len() > 0 {
        let shorter = paths.drop_last();
        assert forall|k: int| 0 <= k < shorter.len() implies entry_by_name(
            scan.table.current_entries(),
            #[trigger] shorter[k],
        ) is Some by {
            assert(shorter[k] == paths[k]);
        }
        law_known_paths_can_be_read(scan, shorter, schema);
        assert(entry_by_name(scan.table.current_entries(), paths[paths.len() - 1]) is Some);
    }
}

proof fn lemma_none_missing(entries: Seq<FieldEntry>, paths: Seq<Seq<char>>, k: int)
    requires
        first_missing(entries, paths) is None,
        0 <= k < paths.len(),
    ensures
        entry_by_name(entries, paths[k]) is Some,
    decreases paths.len(),
{
    if k < paths.len() - 1 {
        lemma_none_missing(entries, paths.drop_last(), k);
    }
}

proof fn lemma_first_missing(entries: Seq<FieldEntry>, paths: Seq<Seq<char>>, i: int)
    requires
        0 <= i < paths.len(),
        first_missing(entries, paths.take(i)) is None,
        entry_by_name(entries, paths[i]) is None,
    ensures
        first_missing(entries, paths) == Some(paths[i]),
    decreases paths.len(),
{
    if i == paths.len() - 1 {
        assert(paths.drop_last() =~= paths.take(i));
    } else {
        assert(paths.drop_last().take(i) =~= paths.take(i));
        lemma_first_missing(entries, paths.drop_last(), i);
    }
}

/// Every file is read: each is a partition that the scan declares, and there are no partitions
/// without a file but the one of a scan that has no files.
pub proof fn law_every_file_is_a_partition(scan: ScanView, i: int)
    requires
        valid_scan(scan),
        0 <= i < scan.tasks.len(),
    ensures
        i < scan.properties.partitions,
        scan.properties.partitions == scan.tasks.len(),
        scan.properties.emission == EmissionType::Incremental,
        scan.properties.boundedness == Boundedness::Bounded,
{
}

/// A scan declares at least as many partitions as it has files, at least one, and no more than
/// that. The columns are those that it was asked to declare.
pub proof fn law_partitions_are_files(schema: ArrowSchemaView, files: nat)
    ensures
        ({
            let declared = scan_properties(schema, files);
            &&& declared.partitions >= files
            &&& declared.partitions >= 1
            &&& declared.partitions == files || declared.partitions == 1
            &&& declared.schema == schema
            &&& declared.emission == EmissionType::Incremental
            &&& declared.boundedness == Boundedness::Bounded
        }),
{
}

/// A scan returns a column for each position that it was asked for, in that order: the one that
/// stands there, under the name that is read.
pub proof fn law_projected_columns_are_those_asked_for(
    schema: ArrowSchemaView,
    indices: Seq<usize>,
    k: int,
)
    requires
        0 <= k < indices.len(),
        indices[k] < schema.fields.len(),
    ensures
        projected(schema, Some(indices)).fields.len() == indices.len(),
        projected(schema, Some(indices)).fields[k] == schema.fields[indices[k] as int],
        projected(schema, Some(indices)).metadata == schema.metadata,
        column_names(schema.fields, Some(indices)) matches Some(names) && names.len()
            == indices.len() && names[k] == schema.fields[indices[k] as int].name,
{
}

/// A scan that is asked for no columns in particular returns them all.
pub proof fn law_all_columns_are_returned(schema: ArrowSchemaView)
    ensures
        projected(schema, None) == schema,
        column_names(schema.fields, None) is None,
        in_range(None, schema.fields.len()),
{
}

/// A scan can be asked for any columns that there are.
pub proof fn law_positions_of_columns_are_in_range(indices: Seq<usize>, columns: nat)
    requires
        forall|k: int| 0 <= k < indices.len() ==> #[trigger] indices[k] < columns,
    ensures
        in_range(Some(indices), columns),
{
}

/// A narrowed scan reads the paths that it was asked for, in that order, and declares the columns
/// that it was asked to declare. All else is that of the scan.
pub proof fn law_nested_projection_is_recorded(
    scan: ScanView,
    paths: Seq<Seq<char>>,
    schema: ArrowSchemaView,
)
    requires
        nested_projection(scan, paths, schema) is Ok,
    ensures
        nested_projection(scan, paths, schema) matches Ok(next) && {
            &&& next.projection == Some(paths)
            &&& next.properties.schema == schema
            &&& next.tasks.len() == scan.tasks.len()
            &&& next.table == scan.table
            &&& next.snapshot_id == scan.snapshot_id
            &&& next.predicates == scan.predicates
            &&& next.limit == scan.limit
            &&& valid_scan(next)
        },
{
}

/// A path that the table's current schema does not know is an error that names the first such
/// path.
pub proof fn law_unknown_path_is_an_error(
    scan: ScanView,
    paths: Seq<Seq<char>>,
    schema: ArrowSchemaView,
    i: int,
)
    requires
        0 <= i < paths.len(),
        entry_by_name(scan.table.current_entries(), paths[i]) is None,
        forall|k: int|
            0 <= k < i ==> entry_by_name(
                scan.table.current_entries(),
                #[trigger] paths[k],
            ) is Some,
    ensures
        nested_projection(scan, paths, schema) matches Err(error) && error.kind == ErrorKind::Plan
            && error.message == "Column `"@ + paths[i] + "` not found in iceberg table schema"@,
{
    let front = paths.take(i);
    assert forall|k: int| 0 <= k < front.len() implies entry_by_name(
        scan.table.current_entries(),
        #[trigger] front[k],
    ) is Some by {
        assert(front[k] == paths[k]);
    }
    law_known_paths_can_be_read(scan, front, schema);
    lemma_first_missing(scan.table.current_entries(), paths, i);
}

/// The text of a scan without projection, filter and limit.
pub proof fn law_text_of_a_plain_scan(scan: ScanView)
    requires
        scan.projection is None,
        scan.predicates is None,
        scan.limit is None,
    ensures
        scan_text(scan) == "IcebergTableScan projection:[] predicate:[]"@,
{
    reveal_strlit("IcebergTableScan projection:[");
    reveal_strlit("] predicate:[");
    reveal_strlit("]");
    reveal_strlit("IcebergTableScan projection:[] predicate:[]");
    assert(scan_text(scan) =~= "IcebergTableScan projection:[] predicate:[]"@);
}

/// A limit is written behind the text of the scan without it, as the number of rows that it is.
pub proof fn law_text_of_a_limit(scan: ScanView, limit: usize)
    requires
        scan.limit == Some(limit),
    ensures
        scan_text(scan) == scan_text(ScanView { limit: None, ..scan }) + " limit:["@
            + decimal_digits(limit as nat) + "]"@,
{
    let plain = ScanView { limit: None, ..scan };
    assert(scan_text(scan) =~= scan_text(plain) + " limit:["@ + decimal_digits(limit as nat)
        + "]"@);
}

/// The names of the columns to read are written between the first brackets, with commas between
/// them, and the filter between the second.
pub proof fn law_text_of_projection_and_filter(scan: ScanView, names: Seq<Seq<char>>)
    requires
        scan.projection == Some(names),
        scan.limit is None,
    ensures
        scan.predicates is None ==> scan_text(scan) == "IcebergTableScan projection:["@ + separated(
            names,
            ","@,
        ) + "] predicate:["@ + "]"@,
        scan.predicates matches Some(predicate) ==> scan_text(scan)
            == "IcebergTableScan projection:["@ + separated(names, ","@) + "] predicate:["@
            + predicate.text@ + "]"@,
{
    let head = "IcebergTableScan projection:["@ + separated(names, ","@) + "] predicate:["@;
    if let Some(predicate) = scan.predicates {
        assert(scan_text(scan) =~= head + predicate.text@ + "]"@);
    } else {
        assert(scan_text(scan) =~= head + "]"@);
    }
}

/// A scan of all columns is written as one of none: nothing stands between the first brackets.
pub proof fn law_text_of_all_columns(scan: ScanView)
    requires
        scan.projection is None,
    ensures
        scan_text(scan) == scan_text(ScanView { projection: Some(Seq::empty()), ..scan }),
{
}

/// The error for a scan without files names the partition that was asked for.
pub proof fn law_error_of_an_empty_scan(partition: nat)
    ensures
        scan_is_empty(partition).kind == ErrorKind::Execution,
        scan_is_empty(partition).message == "IcebergTableScan: requested partition "@
            + decimal_digits(partition) + " but scan is empty"@,
{
}

/// A scan that is asked for a list of columns reads as many as the list has, none where it is empty.
pub proof fn law_as_many_columns_as_asked_for(schema: ArrowSchemaView, indices: Seq<usize>)
    ensures
        projected(schema, Some(indices)).fields.len() == indices.len(),
        projected(schema, Some(indices)).metadata == schema.metadata,
        column_names(schema.fields, Some(indices)) matches Some(names) && names.len()
            == indices.len(),
{
}

} // verus!
