//! The trace of the edge in use: lines of the form `key=value`.

use crate::providers::cloudflare::ResolveError;
use crate::text::{bytes_equal, copy_range, split, split_on, views};
use vstd::prelude::*;

verus! {

/// One `key=value` line of a trace.
#[derive(Clone, Debug, PartialEq, Eq)]
pub struct TraceEntry {
    pub key: Vec<u8>,
    pub value: Vec<u8>,
}

impl View for TraceEntry {
    type V = (Seq<u8>, Seq<u8>);

    open spec fn view(&self) -> (Seq<u8>, Seq<u8>) {
        (self.key@, self.value@)
    }
}

/// A line without the carriage return at its end, if it has one.
pub open spec fn strip_cr(line: Seq<u8>) -> Seq<u8> {
    if line.len() > 0 && line.last() == 13 {
        line.drop_last()
    } else {
        line
    }
}

/// The lines of a text. A line ends at a line feed, a carriage return just
/// before it is dropped, and the last line needs no line feed.
pub open spec fn trace_lines(body: Seq<u8>) -> Seq<Seq<u8>> {
    let raw = split_on(body, 10);
    let n = if raw.last().len() == 0 {
        raw.len() - 1
    } else {
        raw.len() as int
    };
    Seq::new(
        n as nat,
        |i: int|
            if i < raw.len() - 1 {
                strip_cr(raw[i])
            } else {
                raw[i]
            },
    )
}

/// A line with exactly one `=`.
pub open spec fn well_formed(line: Seq<u8>) -> bool {
    split_on(line, 61).len() == 2
}

/// Every line has exactly one `=`.
pub open spec fn all_well_formed(lines: Seq<Seq<u8>>) -> bool {
    forall|i: int| 0 <= i < lines.len() ==> well_formed(#[trigger] lines[i])
}

/// What stands before and after the `=` of a line.
pub open spec fn pair_of(line: Seq<u8>) -> (Seq<u8>, Seq<u8>) {
    (split_on(line, 61)[0], split_on(line, 61)[1])
}

/// The key and value of each line.
pub open spec fn pairs_of(lines: Seq<Seq<u8>>) -> Seq<(Seq<u8>, Seq<u8>)> {
    Seq::new(lines.len(), |i: int| pair_of(lines[i]))
}

/// The key and value of each entry.
pub open spec fn entry_views(entries: Seq<TraceEntry>) -> Seq<(Seq<u8>, Seq<u8>)> {
    Seq::new(entries.len(), |i: int| entries[i]@)
}

/// The value of `key`: that of the last pair with this key.
pub open spec fn lookup(pairs: Seq<(Seq<u8>, Seq<u8>)>, key: Seq<u8>) -> Option<Seq<u8>>
    decreases pairs.len(),
{
    if pairs.len() == 0 {
        None
    } else if pairs.last().0 == key {
        Some(pairs.last().1)
    } else {
        lookup(pairs.drop_last(), key)
    }
}

/// Reads a trace: one `key=value` pair per line.
pub fn parse_trace(body: &[u8]) -> (r: Result<Vec<TraceEntry>, ResolveError>)
    ensures
        r is Ok <==> all_well_formed(trace_lines(body@)),
        r matches Ok(entries) ==> entry_views(entries@) == pairs_of(trace_lines(body@)),
        r matches Err(e) ==> e == ResolveError::MalformedTrace,
{
    let raw = split(body, 10);
    let ghost lines = trace_lines(body@);
    let n: usize = if raw[raw.len() - 1].len() == 0 {
        raw.len() - 1
    } else {
        raw.len()
    };
    proof {
        assert(views(raw@).last() == raw@[raw@.len() - 1]@);
    }
    let mut entries: Vec<TraceEntry> = Vec::new();
    let mut i: usize = 0;
    while i < n
        invariant
            0 <= i <= n <= raw@.len(),
            n == lines.len(),
            lines == trace_lines(body@),
            views(raw@) == split_on(body@, 10),
            entries@.len() == i,
            forall|j: int| 0 <= j < i ==> well_formed(#[trigger] lines[j]),
            forall|j: int| 0 <= j < i ==> (#[trigger] entries@[j])@ == pair_of(lines[j]),
        decreases n - i,
    {
        let whole: &Vec<u8> = &raw[i];
        let end: usize = if i < raw.len() - 1 && whole.len() > 0 && whole[whole.len() - 1] == 13 {
            whole.len() - 1
        } else {
            whole.len()
        };
        let line = copy_range(whole.as_slice(), 0, end);
        proof {
            assert(views(raw@)[i as int] == raw@[i as int]@);
            assert(whole@.subrange(0, whole@.len() as int) =~= whole@);
            assert(whole@.len() > 0 ==> whole@.subrange(0, whole@.len() - 1) =~= whole@.drop_last());
            assert(line@ == lines[i as int]);
        }
        let mut fields = split(line.as_slice(), 61);
        if fields.len() != 2 {
            proof {
                assert(!well_formed(lines[i as int]));
            }
            return Err(ResolveError::MalformedTrace);
        }
        proof {
            assert(views(fields@)[0] == fields@[0]@);
            assert(views(fields@)[1] == fields@[1]@);
        }
        let value = fields.pop().unwrap();
        let key = fields.pop().unwrap();
        entries.push(TraceEntry { key, value });
        i += 1;
    }
    proof {
        assert(entry_views(entries@) =~= pairs_of(lines));
    }
    Ok(entries)
}

/// The value of `key` among the entries, where several have the key that of
/// the last.
pub fn field(entries: &Vec<TraceEntry>, key: &[u8]) -> (r: Option<Vec<u8>>)
    ensures
        match lookup(entry_views(entries@), key@) {
            Some(v) => r matches Some(found) && found@ == v,
            None => r is None,
        },
{
    let mut i: usize = entries.len();
    let ghost pairs = entry_views(entries@);
    proof {
        assert(pairs.take(pairs.len() as int) == pairs);
    }
    while i > 0
        invariant
            0 <= i <= entries@.len(),
            pairs == entry_views(entries@),
            lookup(pairs, key@) == lookup(pairs.take(i as int), key@),
        decreases i,
    {
        i -= 1;
        proof {
            assert(pairs.take(i + 1).last() == entries@[i as int]@);
            assert(pairs.take(i + 1).drop_last() == pairs.take(i as int));
        }
        if bytes_equal(entries[i].key.as_slice(), key) {
            let value: &Vec<u8> = &entries[i].value;
            let found = copy_range(value.as_slice(), 0, value.len());
            proof {
                assert(value@.subrange(0, value@.len() as int) =~= value@);
            }
            return Some(found);
        }
    }
    None
}

} // verus!
