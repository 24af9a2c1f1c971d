//! The tracker's statistics: the torrents it serves and, for each connection of a new peer,
//! its time and the running counts of connections and of complete peers.

use vstd::prelude::*;

verus! {

/// The tracker's statistics.
pub struct Json {
    pub torrents: u32,
    pub times: Vec<String>,
    pub connections: Vec<u32>,
    pub completed: Vec<u32>,
}

/// What can go wrong reading statistics from a file.
#[derive(PartialEq, Eq, Debug, Clone, Copy, Structural)]
pub enum JsonError {
    OpeningFile,
    Format,
}

/// The running count that follows `counts`: one more than the last count, or one for the
/// first connection.
pub open spec fn spec_next_connections(counts: Seq<u32>) -> int {
    if counts.len() == 0 {
        1
    } else {
        counts.last() + 1
    }
}

/// The running count of complete peers that follows `counts`: the last count, one more
/// where the new peer is complete.
pub open spec fn spec_next_completed(counts: Seq<u32>, is_completed: bool) -> int {
    (if counts.len() == 0 {
        0
    } else {
        counts.last() as int
    }) + if is_completed {
        1int
    } else {
        0int
    }
}

/// Whether one more connection can be counted without the counts overflowing.
pub open spec fn spec_can_count(json: Json, is_completed: bool) -> bool {
    spec_next_connections(json.connections@) <= u32::MAX && spec_next_completed(
        json.completed@,
        is_completed,
    ) <= u32::MAX
}

/// Whether the statistics are consistent: one time and two counts per connection, the
/// connections counted 1, 2, 3, ..., and the count of complete peers starting at 0 or 1 and
/// growing by 0 or 1 with each connection, so never above the count of connections.
pub open spec fn spec_counts_consistent(json: Json) -> bool {
    let n = json.connections@.len();
    &&& json.times@.len() == n
    &&& json.completed@.len() == n
    &&& forall|i: int| 0 <= i < n ==> #[trigger] json.connections@[i] == i + 1
    &&& n > 0 ==> json.completed@[0] <= 1
    &&& forall|i: int|
        0 < i < n ==> #[trigger] json.completed@[i] == json.completed@[i - 1] || json.completed@[i]
            == json.completed@[i - 1] + 1
    &&& forall|i: int| 0 <= i < n ==> #[trigger] json.completed@[i] <= i + 1
}

/// The local time, as `YYYY-MM-DD HH:MM:SS`, from `chrono::Local::now` formatted with
/// `chrono`'s `format`. Nothing is stated of it: it is the time of the call.
#[verifier::external_body]
fn local_time_text() -> String {
    chrono::Local::now().format("%Y-%m-%d %H:%M:%S").to_string()
}

impl Json {
    /// Statistics for `torrents` torrents, with no connection yet.
    pub fn new(torrents: u32) -> (res: Json)
        ensures
            res.torrents == torrents,
            res.times@.len() == 0,
            res.connections@.len() == 0,
            res.completed@.len() == 0,
            spec_counts_consistent(res),
    {
        Json { torrents, times: Vec::new(), connections: Vec::new(), completed: Vec::new() }
    }

    /// Counts a connection of a new peer at the time `date`, complete or not.
    pub fn record_connection(&mut self, date: String, is_completed: bool)
        requires
            spec_can_count(*old(self), is_completed),
        ensures
            final(self).torrents == old(self).torrents,
            final(self).times@ == old(self).times@.push(date),
            final(self).connections@ == old(self).connections@.push(
                spec_next_connections(old(self).connections@) as u32,
            ),
            final(self).completed@ == old(self).completed@.push(
                spec_next_completed(old(self).completed@, is_completed) as u32,
            ),
            spec_counts_consistent(*old(self)) ==> spec_counts_consistent(*final(self)),
    {
        self.times.push(date);
        let connections_len = self.connections.len();
        if connections_len == 0 {
            self.connections.push(1);
        } else {
            let last = self.connections[connections_len - 1];
            self.connections.push(last + 1);
        }
        let completed_len = self.completed.len();
        let last_completed: u32 = if completed_len == 0 {
            0
        } else {
            self.completed[completed_len - 1]
        };
        if is_completed {
            self.completed.push(last_completed + 1);
        } else {
            self.completed.push(last_completed);
        }
    }

    /// Counts a connection of a new peer, complete or not, at the current local time.
    pub fn add_new_connection(&mut self, is_completed: bool)
        requires
            spec_can_count(*old(self), is_completed),
        ensures
            final(self).torrents == old(self).torrents,
            final(self).times@.len() == old(self).times@.len() + 1,
            final(self).times@.take(old(self).times@.len() as int) == old(self).times@,
            final(self).connections@ == old(self).connections@.push(
                spec_next_connections(old(self).connections@) as u32,
            ),
            final(self).completed@ == old(self).completed@.push(
                spec_next_completed(old(self).completed@, is_completed) as u32,
            ),
            spec_counts_consistent(*old(self)) ==> spec_counts_consistent(*final(self)),
    {
        let date = local_time_text();
        self.record_connection(date, is_completed);
        assert(self.times@.take(old(self).times@.len() as int) =~= old(self).times@);
    }
}

} // verus!
