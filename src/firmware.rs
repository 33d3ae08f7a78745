//! Bookkeeping of firmware operations on child devices: which operations are
//! in flight and in which state, the durable records kept for recovery, and
//! the decision taken on each request, response, timeout and restart.
//! Sending messages, arming timers and writing records are left to the
//! caller, which performs what each decision returns.
use crate::text::decimal;
use crate::text::decimal_text;
use crate::text::same_text;
use vstd::prelude::*;

verus! {

/// Identifies an operation in flight: the child device and the operation id.
#[derive(Debug)]
pub struct OperationKey {
    pub child_id: String,
    pub operation_id: String,
}

impl OperationKey {
    pub fn new(child_id: &str, operation_id: &str) -> (r: OperationKey)
        ensures
            r.child_id@ == child_id@,
            r.operation_id@ == operation_id@,
    {
        OperationKey { child_id: child_id.to_owned(), operation_id: operation_id.to_owned() }
    }
}

/// Whether the child device has acknowledged the work order.
#[derive(Debug, Clone, Copy, PartialEq, Eq, Structural)]
pub enum ActiveOperationState {
    Pending,
    Executing,
}

/// A firmware update request for a child device.
#[derive(Debug)]
pub struct FirmwareRequest {
    pub device: String,
    pub name: String,
    pub version: String,
    pub url: String,
}

/// A firmware request as plain values: device, name, version and url.
pub type RequestView = (Seq<char>, Seq<char>, Seq<char>, Seq<char>);

impl View for FirmwareRequest {
    type V = RequestView;

    open spec fn view(&self) -> RequestView {
        (self.device@, self.name@, self.version@, self.url@)
    }
}

/// Entry `i` is the first awaiting operation `op`.
pub open spec fn is_first_awaiting(s: Seq<(Seq<char>, RequestView)>, op: Seq<char>, i: int) -> bool {
    0 <= i < s.len() && s[i].0 == op && forall|j: int| 0 <= j < i ==> (#[trigger] s[j]).0 != op
}

/// The durable record of an operation in flight.
#[derive(Debug)]
pub struct FirmwareOperationEntry {
    pub operation_id: String,
    pub child_id: String,
    pub name: String,
    pub version: String,
    pub server_url: String,
    pub file_transfer_url: String,
    pub sha256: String,
    pub attempt: u32,
}

/// A durable record as plain values.
pub struct EntryView {
    pub operation_id: Seq<char>,
    pub child_id: Seq<char>,
    pub name: Seq<char>,
    pub version: Seq<char>,
    pub server_url: Seq<char>,
    pub file_transfer_url: Seq<char>,
    pub sha256: Seq<char>,
    pub attempt: nat,
}

impl View for FirmwareOperationEntry {
    type V = EntryView;

    open spec fn view(&self) -> EntryView {
        EntryView {
            operation_id: self.operation_id@,
            child_id: self.child_id@,
            name: self.name@,
            version: self.version@,
            server_url: self.server_url@,
            file_transfer_url: self.file_transfer_url@,
            sha256: self.sha256@,
            attempt: self.attempt as nat,
        }
    }
}

/// The record `e` with its attempt counter one higher (it stays at the
/// largest `u32` once there).
pub open spec fn next_attempt(e: EntryView) -> EntryView {
    EntryView { attempt: if e.attempt < u32::MAX { e.attempt + 1 } else { e.attempt }, ..e }
}

/// The SHA-256 digest of a text, as 64 lowercase hex digits.
pub uninterp spec fn sha256_hex(s: Seq<char>) -> Seq<char>;

/// Relies on `sha256::digest` on a `&str`: the hex-encoded SHA-256 digest of
/// its UTF-8 bytes, 32 bytes as 64 hex digits.
#[verifier::external_body]
fn sha256_digest(s: &str) -> (r: String)
    ensures
        r@ == sha256_hex(s@),
        r@.len() == 64,
{
    sha256::digest(s)
}

/// The name under which the firmware of a source url is cached: the digest
/// of the url.
pub fn firmware_cache_key(url: &str) -> (r: String)
    ensures
        r@ == sha256_hex(url@),
{
    sha256_digest(url)
}

/// Relies on `nanoid::format` with nanoid's default random source and its
/// `SAFE` alphabet of 64 ASCII characters, as `nanoid!()` expands: a fresh
/// random id of 21 characters.
#[verifier::external_body]
fn new_operation_id() -> (r: String)
    ensures
        r@.len() == 21,
{
    nanoid::format(nanoid::rngs::default, &nanoid::alphabet::SAFE, 21)
}

/// The url under which the local file-transfer service exposes a cached
/// firmware to a child device.
pub open spec fn file_transfer_url_of(host: Seq<char>, child: Seq<char>, cache_key: Seq<char>) -> Seq<
    char,
> {
    "http://"@ + host + "/tedge/file-transfer/"@ + child + "/firmware_update/"@ + cache_key
}

/// Builds the file-transfer url of a cached firmware.
pub fn file_transfer_url(host: &str, child: &str, cache_key: &str) -> (r: String)
    ensures
        r@ == file_transfer_url_of(host@, child@, cache_key@),
{
    let mut r = "http://".to_owned();
    r.append(host);
    r.append("/tedge/file-transfer/");
    r.append(child);
    r.append("/firmware_update/");
    r.append(cache_key);
    r
}

/// Record `e` is for the same child, firmware and source as request `r`.
pub open spec fn same_request(e: EntryView, r: FirmwareRequest) -> bool {
    e.child_id == r.device@ && e.name == r.name@ && e.version == r.version@ && e.server_url
        == r.url@
}

impl FirmwareOperationEntry {
    /// A copy of this record.
    pub fn duplicate(&self) -> (r: FirmwareOperationEntry)
        ensures
            r@ == self@,
    {
        FirmwareOperationEntry {
            operation_id: self.operation_id.clone(),
            child_id: self.child_id.clone(),
            name: self.name.clone(),
            version: self.version.clone(),
            server_url: self.server_url.clone(),
            file_transfer_url: self.file_transfer_url.clone(),
            sha256: self.sha256.clone(),
            attempt: self.attempt,
        }
    }

    /// This record with its attempt counter incremented.
    pub fn increment_attempt(self) -> (r: FirmwareOperationEntry)
        ensures
            r@ == next_attempt(self@),
    {
        let attempt = if self.attempt < u32::MAX {
            self.attempt + 1
        } else {
            self.attempt
        };
        FirmwareOperationEntry { attempt, ..self }
    }

    /// Whether this record is for the same request.
    pub fn matches(&self, r: &FirmwareRequest) -> (b: bool)
        ensures
            b == same_request(self@, *r),
    {
        same_text(self.child_id.as_str(), r.device.as_str()) && same_text(
            self.name.as_str(),
            r.name.as_str(),
        ) && same_text(self.version.as_str(), r.version.as_str()) && same_text(
            self.server_url.as_str(),
            r.url.as_str(),
        )
    }
}

pub open spec fn key_at(s: Seq<(OperationKey, ActiveOperationState)>, i: int) -> (Seq<char>, Seq<char>) {
    (s[i].0.child_id@, s[i].0.operation_id@)
}

pub open spec fn is_tracked(s: Seq<(OperationKey, ActiveOperationState)>, k: (Seq<char>, Seq<char>)) -> bool {
    exists|i: int| 0 <= i < s.len() && #[trigger] key_at(s, i) == k
}

pub open spec fn unique_ops(s: Seq<(OperationKey, ActiveOperationState)>) -> bool {
    forall|i: int, j: int|
        0 <= i < s.len() && 0 <= j < s.len() && #[trigger] key_at(s, i) == #[trigger] key_at(s, j) ==> i == j
}

/// The state of the operation with key `k` in table `s`, if tracked.
pub open spec fn state_in(s: Seq<(OperationKey, ActiveOperationState)>, k: (Seq<char>, Seq<char>)) -> Option<
    ActiveOperationState,
> {
    if is_tracked(s, k) {
        Some(s[choose|i: int| 0 <= i < s.len() && #[trigger] key_at(s, i) == k].1)
    } else {
        None
    }
}

proof fn lemma_state_at(s: Seq<(OperationKey, ActiveOperationState)>, i: int)
    requires
        unique_ops(s),
        0 <= i < s.len(),
    ensures
        state_in(s, key_at(s, i)) == Some(s[i].1),
{
    let k = key_at(s, i);
    assert(is_tracked(s, k));
    let j = choose|j: int| 0 <= j < s.len() && #[trigger] key_at(s, j) == k;
    assert(key_at(s, j) == key_at(s, i));
}

/// The operations in flight on child devices, and the durable records.
pub struct FirmwareManager {
    tedge_device_id: String,
    timeout_sec: u64,
    active: Vec<(OperationKey, ActiveOperationState)>,
    records: Vec<FirmwareOperationEntry>,
    pending_downloads: Vec<(String, FirmwareRequest)>,
}

/// What to do about a firmware request.
#[derive(Debug)]
pub enum RequestDecision {
    /// The request targets the main device, which this manager leaves to
    /// another handler.
    NotForChild,
    /// The same request is in flight already: save this record, with its
    /// attempt counter incremented, resend it as the work order and arm the
    /// timeout; no second operation is started.
    AlreadyAddressed(FirmwareOperationEntry),
    /// A new operation with this id: fetch the firmware, then call
    /// `FirmwareManager::start_with_file`.
    Download(String),
}

/// How to report the failure of an operation: first as executing when the
/// child device had not acknowledged it, then as failed with this reason.
#[derive(Debug)]
pub struct FailureDecision {
    pub publish_executing: bool,
    pub reason: String,
}

/// What to do once a download is over.
#[derive(Debug)]
pub enum DownloadDecision {
    /// No operation awaits this download.
    Unknown,
    /// The firmware is cached: start the operation with this request.
    Start(FirmwareRequest),
    /// The download failed: the operation of this child device fails.
    Failed { child_id: String, reason: FailureDecision },
}

/// The reason of a failed download.
pub open spec fn download_reason_of(url: Seq<char>, error: Seq<char>) -> Seq<char> {
    "Download from "@ + url + " failed with "@ + error
}

/// Words the failure of a download.
pub fn download_failure_reason(url: &str, error: &str) -> (r: String)
    ensures
        r@ == download_reason_of(url@, error@),
{
    let mut r = "Download from ".to_owned();
    r.append(url);
    r.append(" failed with ");
    r.append(error);
    r
}

/// The reason of an operation that timed out.
pub open spec fn timeout_reason_of(child: Seq<char>, secs: nat, operation_id: Seq<char>) -> Seq<char> {
    "Child device "@ + child + " did not respond within the timeout interval of "@ + decimal(secs)
        + "sec. Operation ID="@ + operation_id
}

/// Words the failure of an operation that timed out.
pub fn timeout_failure_reason(child: &str, timeout_sec: u64, operation_id: &str) -> (r: String)
    ensures
        r@ == timeout_reason_of(child@, timeout_sec as nat, operation_id@),
{
    let mut r = "Child device ".to_owned();
    r.append(child);
    r.append(" did not respond within the timeout interval of ");
    let secs = decimal_text(timeout_sec);
    r.append(secs.as_str());
    r.append("sec. Operation ID=");
    r.append(operation_id);
    r
}

/// What the child device reported about an operation.
#[derive(Debug, Clone, Copy, PartialEq, Eq, Structural)]
pub enum ChildStatus {
    Executing,
    Successful,
    Failed,
}

/// What to do about a response of a child device.
#[derive(Debug)]
pub struct ResponseDecision {
    /// The operation is not tracked: nothing to do.
    pub ignored: bool,
    /// Report the operation as executing to the cloud.
    pub publish_executing: bool,
    /// Re-arm the timeout of the operation.
    pub rearm_timeout: bool,
    /// The record of a successful operation: report the installed firmware
    /// and success, then delete the record.
    pub succeeded: Option<FirmwareOperationEntry>,
    /// Report failure to the cloud, with this reason, and delete the record.
    pub failed: Option<String>,
    /// The child device reported success, but the operation has no record:
    /// report failure with the error of reading the record.
    pub record_missing: bool,
}

impl FirmwareManager {
    /// The state of the operation `op` of `child`, if in flight.
    pub closed spec fn active_state(&self, child: Seq<char>, op: Seq<char>) -> Option<
        ActiveOperationState,
    > {
        state_in(self.active@, (child, op))
    }

    /// The durable records, in the order they were written.
    pub closed spec fn records(&self) -> Seq<EntryView> {
        self.records@.map_values(|e: FirmwareOperationEntry| e@)
    }

    /// The operations awaiting the download of their firmware, with their
    /// requests, in the order they were started.
    pub closed spec fn awaiting(&self) -> Seq<(Seq<char>, RequestView)> {
        self.pending_downloads@.map_values(|p: (String, FirmwareRequest)| (p.0@, p.1@))
    }

    /// How long a child device may stay silent, in seconds.
    pub closed spec fn timeout(&self) -> u64 {
        self.timeout_sec
    }

    /// The id of the main device.
    pub closed spec fn device_id(&self) -> Seq<char> {
        self.tedge_device_id@
    }

    pub closed spec fn wf(&self) -> bool {
        unique_ops(self.active@)
    }

    /// A manager with nothing in flight.
    pub fn new(tedge_device_id: String, timeout_sec: u64) -> (r: FirmwareManager)
        ensures
            r.timeout() == timeout_sec,
            r.wf(),
            r.device_id() == tedge_device_id@,
            r.records() == Seq::<EntryView>::empty(),
            forall|c: Seq<char>, o: Seq<char>| r.active_state(c, o) is None,
    {
        let r = FirmwareManager {
            tedge_device_id,
            timeout_sec,
            active: Vec::new(),
            records: Vec::new(),
            pending_downloads: Vec::new(),
        };
        assert(r.records() =~= Seq::<EntryView>::empty());
        r
    }

    /// The durable records, in the order they were written.
    pub fn stored_records(&self) -> (r: &Vec<FirmwareOperationEntry>)
        ensures
            entry_views(r@) == self.records(),
    {
        &self.records
    }

    fn find_active(&self, child: &str, op: &str) -> (r: Option<usize>)
        ensures
            match r {
                Some(i) => i < self.active@.len() && key_at(self.active@, i as int) == (child@, op@),
                None => !is_tracked(self.active@, (child@, op@)),
            },
    {
        let mut i: usize = 0;
        while i < self.active.len()
            invariant
                i <= self.active@.len(),
                forall|j: int| 0 <= j < i ==> #[trigger] key_at(self.active@, j) != (child@, op@),
            decreases self.active@.len() - i,
        {
            if same_text(self.active[i].0.child_id.as_str(), child) && same_text(
                self.active[i].0.operation_id.as_str(),
                op,
            ) {
                return Some(i);
            }
            i = i + 1;
        }
        None
    }

    /// The state of an operation, if in flight.
    pub fn get_state(&self, child: &str, op: &str) -> (r: Option<ActiveOperationState>)
        requires
            self.wf(),
        ensures
            r == self.active_state(child@, op@),
    {
        match self.find_active(child, op) {
            Some(i) => {
                proof {
                    lemma_state_at(self.active@, i as int);
                }
                Some(self.active[i].1)
            },
            None => None,
        }
    }

    /// Tracks an operation in the given state.
    fn set_state(&mut self, child: &str, op: &str, st: ActiveOperationState)
        requires
            old(self).wf(),
        ensures
            final(self).awaiting() == old(self).awaiting(),
            final(self).wf(),
            final(self).active_state(child@, op@) == Some(st),
            forall|c: Seq<char>, o: Seq<char>|
                (c, o) != (child@, op@) ==> #[trigger] final(self).active_state(c, o) == old(
                    self,
                ).active_state(c, o),
            final(self).records() == old(self).records(),
            final(self).device_id() == old(self).device_id(),
            final(self).timeout() == old(self).timeout(),
    {
        let ghost s0 = self.active@;
        let ghost key = (child@, op@);
        match self.find_active(child, op) {
            Some(i) => {
                self.active.set(i, (OperationKey::new(child, op), st));
                proof {
                    let s = self.active@;
                    assert forall|a: int, b: int|
                        0 <= a < s.len() && 0 <= b < s.len() && #[trigger] key_at(s, a)
                            == #[trigger] key_at(s, b) implies a == b by {
                        assert(key_at(s0, a) == key_at(s, a));
                        assert(key_at(s0, b) == key_at(s, b));
                    }
                    lemma_state_at(s, i as int);
                    assert forall|c: Seq<char>, o: Seq<char>| (c, o) != key implies state_in(
                        s,
                        (c, o),
                    ) == state_in(s0, (c, o)) by {
                        if is_tracked(s0, (c, o)) {
                            let j = choose|j: int| 0 <= j < s0.len() && #[trigger] key_at(s0, j) == (c, o);
                            assert(key_at(s, j) == key_at(s0, j));
                            lemma_state_at(s, j);
                            lemma_state_at(s0, j);
                        }
                        if is_tracked(s, (c, o)) {
                            let j = choose|j: int| 0 <= j < s.len() && #[trigger] key_at(s, j) == (c, o);
                            assert(key_at(s, j) == key_at(s0, j));
                        }
                    }
                }
            },
            None => {
                self.active.push((OperationKey::new(child, op), st));
                proof {
                    let s = self.active@;
                    let n = s0.len() as int;
                    assert forall|a: int, b: int|
                        0 <= a < s.len() && 0 <= b < s.len() && #[trigger] key_at(s, a)
                            == #[trigger] key_at(s, b) implies a == b by {
                        if a < n {
                            assert(key_at(s0, a) == key_at(s, a));
                        }
                        if b < n {
                            assert(key_at(s0, b) == key_at(s, b));
                        }
                    }
                    lemma_state_at(s, n);
                    assert forall|c: Seq<char>, o: Seq<char>| (c, o) != key implies state_in(
                        s,
                        (c, o),
                    ) == state_in(s0, (c, o)) by {
                        if is_tracked(s0, (c, o)) {
                            let j = choose|j: int| 0 <= j < s0.len() && #[trigger] key_at(s0, j) == (c, o);
                            assert(key_at(s, j) == key_at(s0, j));
                            lemma_state_at(s, j);
                            lemma_state_at(s0, j);
                        }
                        if is_tracked(s, (c, o)) {
                            let j = choose|j: int| 0 <= j < s.len() && #[trigger] key_at(s, j) == (c, o);
                            assert(j != n);
                            assert(key_at(s, j) == key_at(s0, j));
                        }
                    }
                }
            },
        }
    }

    /// Stops tracking an operation; returns the state it was in, or
    /// `Pending` if it was not tracked.
    pub fn remove_entry_from_active_operations(&mut self, child: &str, op: &str) -> (r:
        ActiveOperationState)
        requires
            old(self).wf(),
        ensures
            final(self).awaiting() == old(self).awaiting(),
            final(self).wf(),
            r == match old(self).active_state(child@, op@) {
                Some(st) => st,
                None => ActiveOperationState::Pending,
            },
            final(self).active_state(child@, op@) is None,
            forall|c: Seq<char>, o: Seq<char>|
                (c, o) != (child@, op@) ==> #[trigger] final(self).active_state(c, o) == old(
                    self,
                ).active_state(c, o),
            final(self).records() == old(self).records(),
            final(self).device_id() == old(self).device_id(),
            final(self).timeout() == old(self).timeout(),
    {
        let ghost s0 = self.active@;
        let ghost key = (child@, op@);
        match self.find_active(child, op) {
            Some(i) => {
                proof {
                    lemma_state_at(s0, i as int);
                }
                let (_, st) = self.active.remove(i);
                proof {
                    let s = self.active@;
                    assert forall|a: int| 0 <= a < s.len() implies #[trigger] key_at(s, a) == key_at(
                        s0,
                        if a < i {
                            a
                        } else {
                            a + 1
                        },
                    ) by {}
                    assert forall|a: int, b: int|
                        0 <= a < s.len() && 0 <= b < s.len() && #[trigger] key_at(s, a)
                            == #[trigger] key_at(s, b) implies a == b by {
                        let a0 = if a < i { a } else { a + 1 };
                        let b0 = if b < i { b } else { b + 1 };
                        assert(key_at(s0, a0) == key_at(s, a));
                        assert(key_at(s0, b0) == key_at(s, b));
                    }
                    assert(!is_tracked(s, key)) by {
                        if is_tracked(s, key) {
                            let j = choose|j: int| 0 <= j < s.len() && #[trigger] key_at(s, j) == key;
                            let j0 = if j < i { j } else { j + 1 };
                            assert(key_at(s0, j0) == key_at(s, j));
                        }
                    }
                    assert forall|c: Seq<char>, o: Seq<char>| (c, o) != key implies state_in(
                        s,
                        (c, o),
                    ) == state_in(s0, (c, o)) by {
                        if is_tracked(s0, (c, o)) {
                            let j = choose|j: int| 0 <= j < s0.len() && #[trigger] key_at(s0, j) == (c, o);
                            assert(j != i);
                            let j1 = if j < i { j } else { j - 1 };
                            assert(key_at(s, j1) == key_at(s0, j));
                            lemma_state_at(s, j1);
                            lemma_state_at(s0, j);
                        }
                        if is_tracked(s, (c, o)) {
                            let j = choose|j: int| 0 <= j < s.len() && #[trigger] key_at(s, j) == (c, o);
                            let j0 = if j < i { j } else { j + 1 };
                            assert(key_at(s0, j0) == key_at(s, j));
                        }
                    }
                }
                st
            },
            None => ActiveOperationState::Pending,
        }
    }
}

pub open spec fn entry_views(s: Seq<FirmwareOperationEntry>) -> Seq<EntryView> {
    s.map_values(|e: FirmwareOperationEntry| e@)
}

/// The first record that is for the same request as `r`.
pub open spec fn is_first_match(s: Seq<EntryView>, r: FirmwareRequest, i: int) -> bool {
    0 <= i < s.len() && same_request(s[i], r) && forall|j: int|
        0 <= j < i ==> !same_request(#[trigger] s[j], r)
}

/// The first record of operation `op`.
pub open spec fn is_first_of_op(s: Seq<EntryView>, op: Seq<char>, i: int) -> bool {
    0 <= i < s.len() && s[i].operation_id == op && forall|j: int|
        0 <= j < i ==> (#[trigger] s[j]).operation_id != op
}

/// The records with the first record of operation `op`, if any, deleted.
pub open spec fn without_op(s: Seq<EntryView>, op: Seq<char>) -> Seq<EntryView> {
    if exists|i: int| is_first_of_op(s, op, i) {
        s.remove(choose|i: int| is_first_of_op(s, op, i))
    } else {
        s
    }
}

proof fn lemma_first_of_op_unique(s: Seq<EntryView>, op: Seq<char>, a: int, b: int)
    requires
        is_first_of_op(s, op, a),
        is_first_of_op(s, op, b),
    ensures
        a == b,
{
    if a < b {
        assert(s[a].operation_id == op);
    } else if b < a {
        assert(s[b].operation_id == op);
    }
}

proof fn lemma_first_match_unique(s: Seq<EntryView>, r: FirmwareRequest, a: int, b: int)
    requires
        is_first_match(s, r, a),
        is_first_match(s, r, b),
    ensures
        a == b,
{
    if a < b {
        assert(same_request(s[a], r));
    } else if b < a {
        assert(same_request(s[b], r));
    }
}

impl FirmwareManager {
    fn find_record(&self, r: &FirmwareRequest) -> (i: Option<usize>)
        ensures
            match i {
                Some(i) => is_first_match(self.records(), *r, i as int),
                None => forall|j: int| 0 <= j < self.records().len() ==> !same_request(#[trigger] self.records()[j], *r),
            },
    {
        let ghost v = self.records();
        let mut i: usize = 0;
        while i < self.records.len()
            invariant
                v == entry_views(self.records@),
                v.len() == self.records@.len(),
                i <= v.len(),
                forall|j: int| 0 <= j < i ==> !same_request(#[trigger] v[j], *r),
            decreases v.len() - i,
        {
            if self.records[i].matches(r) {
                return Some(i);
            }
            i = i + 1;
        }
        None
    }

    /// Deletes the first record of operation `op`, if any.
    fn remove_record(&mut self, op: &str)
        ensures
            final(self).awaiting() == old(self).awaiting(),
            final(self).records() == without_op(old(self).records(), op@),
            final(self).active == old(self).active,
            final(self).device_id() == old(self).device_id(),
            final(self).timeout() == old(self).timeout(),
    {
        let ghost v = self.records();
        let mut i: usize = 0;
        while i < self.records.len()
            invariant
                self.pending_downloads == old(self).pending_downloads,
                self.active == old(self).active,
                self.tedge_device_id == old(self).tedge_device_id,
                self.timeout_sec == old(self).timeout_sec,
                self.records == old(self).records,
                v == old(self).records(),
                v == entry_views(self.records@),
                v.len() == self.records@.len(),
                i <= v.len(),
                forall|j: int| 0 <= j < i ==> (#[trigger] v[j]).operation_id != op@,
            decreases v.len() - i,
        {
            if same_text(self.records[i].operation_id.as_str(), op) {
                assert(is_first_of_op(v, op@, i as int));
                proof {
                    let c = choose|c: int| is_first_of_op(v, op@, c);
                    lemma_first_of_op_unique(v, op@, c, i as int);
                }
                self.records.remove(i);
                assert(self.records() =~= v.remove(i as int));
                return;
            }
            i = i + 1;
        }
        assert(!exists|c: int| is_first_of_op(v, op@, c));
    }

    /// Decides on a firmware request. A request for the main device is left
    /// alone. A request for the same child, firmware and source as a
    /// recorded operation is not started again: that record's attempt
    /// counter is incremented, its operation tracked as pending again, and
    /// the record returned to be resent. Any other request starts an
    /// operation under a fresh id, which awaits the download of the firmware.
    pub fn handle_firmware_request(&mut self, request: FirmwareRequest) -> (r: RequestDecision)
        requires
            old(self).wf(),
        ensures
            final(self).wf(),
            final(self).device_id() == old(self).device_id(),
            final(self).timeout() == old(self).timeout(),
            request.device@ == old(self).device_id() ==> r is NotForChild && final(self).records()
                == old(self).records() && final(self).awaiting() == old(self).awaiting(),
            !(r is Download) ==> final(self).awaiting() == old(self).awaiting(),
            !(r is AlreadyAddressed) ==> forall|c: Seq<char>, o: Seq<char>|
                #[trigger] final(self).active_state(c, o) == old(self).active_state(c, o),
            r is AlreadyAddressed ==> forall|c: Seq<char>, o: Seq<char>|
                (c, o) != (r->AlreadyAddressed_0@.child_id, r->AlreadyAddressed_0@.operation_id)
                    ==> #[trigger] final(self).active_state(c, o) == old(self).active_state(c, o),
            request.device@ != old(self).device_id() ==> match r {
                RequestDecision::AlreadyAddressed(e) => exists|i: int|
                    is_first_match(old(self).records(), request, i) && e@ == next_attempt(
                        old(self).records()[i],
                    ) && final(self).records() == old(self).records().update(i, e@)
                        && final(self).active_state(e@.child_id, e@.operation_id) == Some(
                        ActiveOperationState::Pending,
                    ),
                RequestDecision::Download(id) => id@.len() == 21 && final(self).awaiting() == old(
                    self,
                ).awaiting().push((id@, request@)) && (forall|j: int|
                    0 <= j < old(self).records().len() ==> !same_request(
                        #[trigger] old(self).records()[j],
                        request,
                    )) && final(self).records() == old(self).records(),
                RequestDecision::NotForChild => false,
            },
    {
        if same_text(request.device.as_str(), self.tedge_device_id.as_str()) {
            return RequestDecision::NotForChild;
        }
        match self.find_record(&request) {
            Some(i) => {
                let ghost v = self.records();
                let e = self.records[i].duplicate().increment_attempt();
                self.records.set(i, e.duplicate());
                assert(self.records() =~= v.update(i as int, e@));
                self.set_state(e.child_id.as_str(), e.operation_id.as_str(), ActiveOperationState::Pending);
                RequestDecision::AlreadyAddressed(e)
            },
            None => {
                let operation_id = new_operation_id();
                let id = operation_id.clone();
                let ghost a0 = self.awaiting();
                let ghost rv = request@;
                self.pending_downloads.push((operation_id, request));
                assert(self.awaiting() =~= a0.push((id@, rv)));
                RequestDecision::Download(id)
            },
        }
    }

    /// The request awaiting the download of operation `operation_id`, no
    /// longer awaited.
    pub fn take_pending_download(&mut self, operation_id: &str) -> (r: Option<FirmwareRequest>)
        requires
            old(self).wf(),
        ensures
            final(self).wf(),
            final(self).records() == old(self).records(),
            final(self).device_id() == old(self).device_id(),
            final(self).timeout() == old(self).timeout(),
            forall|c: Seq<char>, o: Seq<char>|
                #[trigger] final(self).active_state(c, o) == old(self).active_state(c, o),
            match r {
                Some(req) => exists|i: int|
                    is_first_awaiting(old(self).awaiting(), operation_id@, i) && req@ == old(
                        self,
                    ).awaiting()[i].1 && final(self).awaiting() == old(self).awaiting().remove(i),
                None => final(self).awaiting() == old(self).awaiting() && forall|j: int|
                    0 <= j < old(self).awaiting().len() ==> (#[trigger] old(self).awaiting()[j]).0
                        != operation_id@,
            },
    {
        let ghost a0 = self.awaiting();
        let mut i: usize = 0;
        while i < self.pending_downloads.len()
            invariant
                self.wf(),
                self.active == old(self).active,
                self.tedge_device_id == old(self).tedge_device_id,
                self.timeout_sec == old(self).timeout_sec,
                self.records == old(self).records,
                self.pending_downloads == old(self).pending_downloads,
                a0 == self.awaiting(),
                a0.len() == self.pending_downloads@.len(),
                i <= a0.len(),
                forall|j: int| 0 <= j < i ==> (#[trigger] a0[j]).0 != operation_id@,
            decreases a0.len() - i,
        {
            if same_text(self.pending_downloads[i].0.as_str(), operation_id) {
                assert(is_first_awaiting(a0, operation_id@, i as int));
                let (_, req) = self.pending_downloads.remove(i);
                assert(self.awaiting() =~= a0.remove(i as int));
                return Some(req);
            }
            i = i + 1;
        }
        None
    }

    /// Starts operation `operation_id` once its firmware is cached: records
    /// it with a first attempt, tracks it as pending, and returns the record
    /// to be saved and sent as the work order to the child device.
    pub fn start_with_file(
        &mut self,
        request: FirmwareRequest,
        operation_id: &str,
        local_http_host: &str,
        file_sha256: String,
    ) -> (r: FirmwareOperationEntry)
        requires
            old(self).wf(),
        ensures
            final(self).awaiting() == old(self).awaiting(),
            final(self).wf(),
            final(self).device_id() == old(self).device_id(),
            final(self).timeout() == old(self).timeout(),
            r@ == (EntryView {
                operation_id: operation_id@,
                child_id: request.device@,
                name: request.name@,
                version: request.version@,
                server_url: request.url@,
                file_transfer_url: file_transfer_url_of(
                    local_http_host@,
                    request.device@,
                    sha256_hex(request.url@),
                ),
                sha256: file_sha256@,
                attempt: 1,
            }),
            final(self).records() == old(self).records().push(r@),
            final(self).active_state(request.device@, operation_id@) == Some(
                ActiveOperationState::Pending,
            ),
            forall|c: Seq<char>, o: Seq<char>|
                (c, o) != (request.device@, operation_id@) ==> #[trigger] final(self).active_state(
                    c,
                    o,
                ) == old(self).active_state(c, o),
    {
        let cache_key = firmware_cache_key(request.url.as_str());
        let url = file_transfer_url(local_http_host, request.device.as_str(), cache_key.as_str());
        let entry = FirmwareOperationEntry {
            operation_id: operation_id.to_owned(),
            child_id: request.device,
            name: request.name,
            version: request.version,
            server_url: request.url,
            file_transfer_url: url,
            sha256: file_sha256,
            attempt: 1,
        };
        let ghost v = self.records();
        self.records.push(entry.duplicate());
        assert(self.records() =~= v.push(entry@));
        self.set_state(entry.child_id.as_str(), operation_id, ActiveOperationState::Pending);
        entry
    }

    /// Fails an operation: deletes its record and stops tracking it. Returns
    /// whether the cloud must first be told that the operation is executing,
    /// which is so unless the child device had acknowledged it.
    pub fn fail_operation(&mut self, child: &str, operation_id: Option<&str>) -> (publish_executing:
        bool)
        requires
            old(self).wf(),
        ensures
            final(self).awaiting() == old(self).awaiting(),
            final(self).wf(),
            final(self).device_id() == old(self).device_id(),
            final(self).timeout() == old(self).timeout(),
            match operation_id {
                Some(op) => publish_executing == (old(self).active_state(child@, op@) != Some(
                    ActiveOperationState::Executing,
                )) && final(self).records() == without_op(old(self).records(), op@)
                    && final(self).active_state(child@, op@) is None && forall|c: Seq<char>, o: Seq<char>|
                    (c, o) != (child@, op@) ==> #[trigger] final(self).active_state(c, o) == old(
                        self,
                    ).active_state(c, o),
                None => publish_executing && final(self).records() == old(self).records() && forall|
                    c: Seq<char>,
                    o: Seq<char>,
                | #[trigger] final(self).active_state(c, o) == old(self).active_state(c, o),
            },
    {
        match operation_id {
            Some(op) => {
                self.remove_record(op);
                let st = self.remove_entry_from_active_operations(child, op);
                st == ActiveOperationState::Pending
            },
            None => true,
        }
    }

    /// Decides on the expiry of the timeout of an operation: an operation
    /// still in flight fails (the result says whether to report it as
    /// executing first, and why it failed); one no longer tracked is left
    /// alone.
    pub fn process_operation_timeout(&mut self, child: &str, operation_id: &str) -> (r: Option<
        FailureDecision,
    >)
        requires
            old(self).wf(),
        ensures
            forall|c: Seq<char>, o: Seq<char>|
                (c, o) != (child@, operation_id@) ==> #[trigger] final(self).active_state(c, o) == old(
                    self,
                ).active_state(c, o),
            final(self).awaiting() == old(self).awaiting(),
            final(self).wf(),
            final(self).device_id() == old(self).device_id(),
            final(self).timeout() == old(self).timeout(),
            match old(self).active_state(child@, operation_id@) {
                Some(st) => r is Some && r->Some_0.publish_executing == (st == ActiveOperationState::Pending)
                    && r->Some_0.reason@ == timeout_reason_of(child@, old(self).timeout() as nat, operation_id@)
                    && final(self).records()
                    == without_op(old(self).records(), operation_id@) && final(self).active_state(
                    child@,
                    operation_id@,
                ) is None,
                None => r is None && final(self).records() == old(self).records() && forall|
                    c: Seq<char>,
                    o: Seq<char>,
                | #[trigger] final(self).active_state(c, o) == old(self).active_state(c, o),
            },
    {
        match self.get_state(child, operation_id) {
            Some(_) => {
                let reason = timeout_failure_reason(child, self.timeout_sec, operation_id);
                let publish_executing = self.fail_operation(child, Some(operation_id));
                Some(FailureDecision { publish_executing, reason })
            },
            None => None,
        }
    }

    /// Decides on the end of the download of operation `operation_id`: with
    /// no error, the awaited request is handed back to be started with the
    /// file; on error, the operation fails with a reason naming the source.
    /// A download that no operation awaits is ignored.
    pub fn process_after_download(&mut self, operation_id: &str, error: Option<&str>) -> (r:
        DownloadDecision)
        requires
            old(self).wf(),
        ensures
            final(self).wf(),
            final(self).device_id() == old(self).device_id(),
            final(self).timeout() == old(self).timeout(),
            match r {
                DownloadDecision::Unknown => final(self).awaiting() == old(self).awaiting()
                    && final(self).records() == old(self).records() && (forall|c: Seq<char>, o: Seq<char>|
                    #[trigger] final(self).active_state(c, o) == old(self).active_state(c, o)) && forall|j: int|
                    0 <= j < old(self).awaiting().len() ==> (#[trigger] old(self).awaiting()[j]).0
                        != operation_id@,
                DownloadDecision::Start(req) => error is None && exists|i: int|
                    is_first_awaiting(old(self).awaiting(), operation_id@, i) && req@ == old(
                        self,
                    ).awaiting()[i].1 && final(self).awaiting() == old(self).awaiting().remove(i)
                        && final(self).records() == old(self).records() && forall|
                        c: Seq<char>,
                        o: Seq<char>,
                    | #[trigger] final(self).active_state(c, o) == old(self).active_state(c, o),
                DownloadDecision::Failed { child_id, reason } => error is Some && exists|i: int|
                    is_first_awaiting(old(self).awaiting(), operation_id@, i) && child_id@ == old(
                        self,
                    ).awaiting()[i].1.0 && reason.reason@ == download_reason_of(
                        old(self).awaiting()[i].1.3,
                        error->Some_0@,
                    ) && reason.publish_executing == (old(self).active_state(
                        child_id@,
                        operation_id@,
                    ) != Some(ActiveOperationState::Executing)) && final(self).awaiting() == old(
                        self,
                    ).awaiting().remove(i) && final(self).records() == without_op(
                        old(self).records(),
                        operation_id@,
                    ) && final(self).active_state(child_id@, operation_id@) is None && forall|
                        c: Seq<char>,
                        o: Seq<char>,
                    | (c, o) != (child_id@, operation_id@) ==> #[trigger] final(self).active_state(c, o)
                        == old(self).active_state(c, o),
            },
    {
        match self.take_pending_download(operation_id) {
            None => DownloadDecision::Unknown,
            Some(request) => match error {
                None => DownloadDecision::Start(request),
                Some(err) => {
                    let reason = download_failure_reason(request.url.as_str(), err);
                    let child_id = request.device;
                    let publish_executing = self.fail_operation(child_id.as_str(), Some(operation_id));
                    DownloadDecision::Failed {
                        child_id,
                        reason: FailureDecision { publish_executing, reason },
                    }
                },
            },
        }
    }

    /// Decides on a response of a child device about an operation.
    pub fn handle_child_response(&mut self, child: &str, operation_id: &str, status: ChildStatus) -> (r:
        ResponseDecision)
        requires
            old(self).wf(),
        ensures
            forall|c: Seq<char>, o: Seq<char>|
                (c, o) != (child@, operation_id@) ==> #[trigger] final(self).active_state(c, o) == old(
                    self,
                ).active_state(c, o),
            final(self).awaiting() == old(self).awaiting(),
            final(self).wf(),
            final(self).device_id() == old(self).device_id(),
            final(self).timeout() == old(self).timeout(),
            match old(self).active_state(child@, operation_id@) {
                None => r.ignored && !r.publish_executing && !r.rearm_timeout && r.succeeded is None
                    && r.failed is None && !r.record_missing && final(self).records() == old(self).records() && forall|
                    c: Seq<char>,
                    o: Seq<char>,
                | #[trigger] final(self).active_state(c, o) == old(self).active_state(c, o),
                Some(st) => !r.ignored && r.publish_executing == (st == ActiveOperationState::Pending)
                    && match status {
                    ChildStatus::Executing => r.rearm_timeout && r.succeeded is None && r.failed is None && !r.record_missing
                        && final(self).records() == old(self).records() && final(self).active_state(
                        child@,
                        operation_id@,
                    ) == Some(ActiveOperationState::Executing),
                    ChildStatus::Successful => !r.rearm_timeout && r.failed is None && r.record_missing == (r.succeeded is None) && final(self).records()
                        == without_op(old(self).records(), operation_id@) && final(self).active_state(
                        child@,
                        operation_id@,
                    ) is None && match r.succeeded {
                        Some(e) => exists|i: int|
                            is_first_of_op(old(self).records(), operation_id@, i) && e@ == old(
                                self,
                            ).records()[i],
                        None => !exists|i: int| is_first_of_op(old(self).records(), operation_id@, i),
                    },
                    ChildStatus::Failed => !r.rearm_timeout && r.failed is Some && r.failed->Some_0@
                        == "No failure reason provided by child device."@ && !r.record_missing && r.succeeded is None
                        && final(self).records() == without_op(old(self).records(), operation_id@)
                        && final(self).active_state(child@, operation_id@) is None,
                },
            },
    {
        let st = match self.get_state(child, operation_id) {
            Some(st) => st,
            None => {
                return ResponseDecision {
                    ignored: true,
                    publish_executing: false,
                    rearm_timeout: false,
                    succeeded: None,
                    failed: None,
                    record_missing: false,
                };
            },
        };
        let publish_executing = st == ActiveOperationState::Pending;
        if publish_executing {
            self.set_state(child, operation_id, ActiveOperationState::Executing);
        }
        match status {
            ChildStatus::Executing => {
                if !publish_executing {
                    proof {
                        assert(st == ActiveOperationState::Executing);
                    }
                }
                ResponseDecision {
                    ignored: false,
                    publish_executing,
                    rearm_timeout: true,
                    succeeded: None,
                    failed: None,
                    record_missing: false,
                }
            },
            ChildStatus::Successful => {
                let record = self.record_of(operation_id);
                self.remove_record(operation_id);
                self.remove_entry_from_active_operations(child, operation_id);
                ResponseDecision {
                    ignored: false,
                    publish_executing,
                    rearm_timeout: false,
                    record_missing: record.is_none(),
                    succeeded: record,
                    failed: None,
                }
            },
            ChildStatus::Failed => {
                self.remove_record(operation_id);
                self.remove_entry_from_active_operations(child, operation_id);
                ResponseDecision {
                    ignored: false,
                    publish_executing,
                    rearm_timeout: false,
                    succeeded: None,
                    failed: Some("No failure reason provided by child device.".to_owned()),
                    record_missing: false,
                }
            },
        }
    }

    /// A copy of the first record of operation `op`.
    fn record_of(&self, op: &str) -> (r: Option<FirmwareOperationEntry>)
        ensures
            match r {
                Some(e) => exists|i: int| is_first_of_op(self.records(), op@, i) && e@ == self.records()[i],
                None => !exists|i: int| is_first_of_op(self.records(), op@, i),
            },
    {
        let ghost v = self.records();
        let mut i: usize = 0;
        while i < self.records.len()
            invariant
                v == entry_views(self.records@),
                v.len() == self.records@.len(),
                i <= v.len(),
                forall|j: int| 0 <= j < i ==> (#[trigger] v[j]).operation_id != op@,
            decreases v.len() - i,
        {
            if same_text(self.records[i].operation_id.as_str(), op) {
                assert(is_first_of_op(v, op@, i as int));
                let e = self.records[i].duplicate();
                assert(e@ == v[i as int]);
                assert(v == self.records());
                assert(is_first_of_op(self.records(), op@, i as int) && e@ == self.records()[i as int]);
                return Some(e);
            }
            i = i + 1;
        }
        None
    }

    /// Resumes after a restart: every record read back from the durable
    /// store gets its attempt counter incremented and its operation tracked
    /// as pending; the returned records are to be saved, resent as work
    /// orders, and given a fresh timeout.
    pub fn resend_operations(&mut self, stored: Vec<FirmwareOperationEntry>) -> (r: Vec<
        FirmwareOperationEntry,
    >)
        requires
            old(self).wf(),
        ensures
            final(self).awaiting() == old(self).awaiting(),
            final(self).wf(),
            final(self).device_id() == old(self).device_id(),
            final(self).timeout() == old(self).timeout(),
            entry_views(r@) == entry_views(stored@).map_values(|e: EntryView| next_attempt(e)),
            final(self).records() == old(self).records() + entry_views(r@),
            forall|i: int|
                0 <= i < r@.len() ==> final(self).active_state(
                    (#[trigger] r@[i])@.child_id,
                    r@[i]@.operation_id,
                ) == Some(ActiveOperationState::Pending),
    {
        let mut out: Vec<FirmwareOperationEntry> = Vec::new();
        let ghost v0 = self.records();
        let ghost target = entry_views(stored@).map_values(|e: EntryView| next_attempt(e));
        let mut k: usize = 0;
        while k < stored.len()
            invariant
                self.timeout() == old(self).timeout(),
                self.awaiting() == old(self).awaiting(),
                self.wf(),
                self.device_id() == old(self).device_id(),
                k <= stored@.len(),
                out@.len() == k,
                target == entry_views(stored@).map_values(|e: EntryView| next_attempt(e)),
                entry_views(out@) == target.take(k as int),
                self.records() == v0 + entry_views(out@),
                forall|i: int|
                    0 <= i < out@.len() ==> self.active_state(
                        (#[trigger] out@[i])@.child_id,
                        out@[i]@.operation_id,
                    ) == Some(ActiveOperationState::Pending),
            decreases stored@.len() - k,
        {
            let e = stored[k].duplicate().increment_attempt();
            let ghost before = self.records();
            let ghost out0 = out@;
            self.records.push(e.duplicate());
            assert(self.records() =~= before.push(e@));
            self.set_state(e.child_id.as_str(), e.operation_id.as_str(), ActiveOperationState::Pending);
            out.push(e);
            proof {
                assert(entry_views(out@) =~= entry_views(out0).push(e@));
                assert(target.take(k + 1) =~= target.take(k as int).push(target[k as int]));
                assert(self.records() =~= v0 + entry_views(out@));
                assert forall|i: int| 0 <= i < out@.len() implies self.active_state(
                    (#[trigger] out@[i])@.child_id,
                    out@[i]@.operation_id,
                ) == Some(ActiveOperationState::Pending) by {
                    if i < k {
                        assert(out@[i] == out0[i]);
                    }
                }
            }
            k = k + 1;
        }
        assert(target.take(k as int) =~= target);
        out
    }
}

} // verus!
