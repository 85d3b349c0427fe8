//! Writing a reading of the host's memory as `/proc/meminfo` text, and the
//! proof that reading the text gives the reading back.

use crate::linux::proc::{entry_of, kb_to_bytes, kb_value, last_value, size_value, text_value};
use crate::linux::text::{
    all_digits, digits_value, is_digit, is_space, lines, lines_from, single_line, tokens,
    tokens_from, trim_end, trim_start, trimmed, u64_of, unsigned_numeral, COLON, NEWLINE,
};
use crate::oom::pressure::{memory_stats_of, MemoryStats};
use vstd::prelude::*;
use vstd::string::StringSliceAdditionalSpecFns;

verus! {

/// The byte of a space.
pub const SPACE: u8 = 32;

/// The bytes in a kilobyte.
pub const KILOBYTE: u64 = 1024;

/// The decimal numeral of `n`, without leading zeros.
pub open spec fn decimal(n: nat) -> Seq<u8>
    decreases n,
{
    if n < 10 {
        seq![(48 + n) as u8]
    } else {
        decimal(n / 10).push((48 + n % 10) as u8)
    }
}

/// The unit that follows a number in `/proc/meminfo`, with the space
/// before it: ` kB`.
pub open spec fn unit_suffix() -> Seq<u8> {
    seq![SPACE, 107u8, 66u8]
}

/// The value of a line for `bytes` bytes: the whole kilobytes in them and
/// the unit.
pub open spec fn meminfo_value(bytes: u64) -> Seq<u8> {
    decimal((bytes / KILOBYTE) as nat) + unit_suffix()
}

/// The line `key: N kB` for `bytes` bytes, without its line feed.
pub open spec fn meminfo_line(key: Seq<u8>, bytes: u64) -> Seq<u8> {
    key + seq![COLON, SPACE] + meminfo_value(bytes)
}

/// The six lines of a reading.
pub open spec fn meminfo_lines(stats: MemoryStats) -> Seq<Seq<u8>> {
    seq![
        meminfo_line("MemTotal".spec_bytes(), stats.total_memory),
        meminfo_line("MemFree".spec_bytes(), stats.free_memory),
        meminfo_line("MemAvailable".spec_bytes(), stats.available_memory),
        meminfo_line("SwapTotal".spec_bytes(), stats.total_swap),
        meminfo_line("SwapFree".spec_bytes(), stats.free_swap),
        meminfo_line("Cached".spec_bytes(), stats.cached_memory),
    ]
}

/// Lines joined into a text, each followed by a line feed.
pub open spec fn joined(lines: Seq<Seq<u8>>) -> Seq<u8>
    decreases lines.len(),
{
    if lines.len() == 0 {
        Seq::<u8>::empty()
    } else {
        joined(lines.drop_last()) + lines.last() + seq![NEWLINE]
    }
}

/// A reading as `/proc/meminfo` text: one line for each of the six keys,
/// in whole kilobytes.
pub open spec fn meminfo_text(stats: MemoryStats) -> Seq<u8> {
    joined(meminfo_lines(stats))
}

/// A byte count without the bytes beyond its whole kilobytes.
pub open spec fn whole_kilobytes(bytes: u64) -> u64 {
    (bytes - bytes % KILOBYTE) as u64
}

/// A reading with each count cut to whole kilobytes.
pub open spec fn in_whole_kilobytes(stats: MemoryStats) -> MemoryStats {
    MemoryStats {
        total_memory: whole_kilobytes(stats.total_memory),
        free_memory: whole_kilobytes(stats.free_memory),
        available_memory: whole_kilobytes(stats.available_memory),
        total_swap: whole_kilobytes(stats.total_swap),
        free_swap: whole_kilobytes(stats.free_swap),
        cached_memory: whole_kilobytes(stats.cached_memory),
    }
}

/// A key of `/proc/meminfo`: a word without whitespace, colon or line
/// feed.
pub open spec fn is_key(key: Seq<u8>) -> bool {
    &&& key.len() > 0
    &&& forall|i: int|
        0 <= i < key.len() ==> !is_space(#[trigger] key[i]) && key[i] != COLON && key[i]
            != NEWLINE
}

/// Appends the decimal numeral of `n`.
fn push_decimal(out: &mut Vec<u8>, n: u64)
    ensures
        final(out)@ == old(out)@ + decimal(n as nat),
    decreases n,
{
    if n >= 10 {
        push_decimal(out, n / 10);
    }
    let ghost before = out@;
    out.push(48 + (n % 10) as u8);
    proof {
        if n >= 10 {
            assert(out@ =~= old(out)@ + decimal((n / 10) as nat).push((48 + n % 10) as u8));
        } else {
            assert(out@ =~= old(out)@ + seq![(48 + n) as u8]);
        }
    }
}

/// Appends a byte string.
fn push_bytes(out: &mut Vec<u8>, bytes: &[u8])
    ensures
        final(out)@ == old(out)@ + bytes@,
{
    let mut i: usize = 0;
    assert(out@ =~= old(out)@ + bytes@.take(0));
    while i < bytes.len()
        invariant
            i <= bytes.len(),
            out@ == old(out)@ + bytes@.take(i as int),
        decreases bytes.len() - i,
    {
        out.push(bytes[i]);
        i += 1;
        assert(out@ =~= old(out)@ + bytes@.take(i as int));
    }
    assert(bytes@.take(i as int) =~= bytes@);
}

/// Appends the line `key: N kB` and its line feed.
fn push_line(out: &mut Vec<u8>, key: &[u8], bytes: u64)
    ensures
        final(out)@ == old(out)@ + meminfo_line(key@, bytes) + seq![NEWLINE],
{
    push_bytes(out, key);
    out.push(COLON);
    out.push(SPACE);
    push_decimal(out, bytes / KILOBYTE);
    out.push(SPACE);
    out.push(107);
    out.push(66);
    out.push(NEWLINE);
    assert(out@ =~= old(out)@ + meminfo_line(key@, bytes) + seq![NEWLINE]);
}

impl MemoryStats {
    /// The reading as `/proc/meminfo` text.
    pub fn to_meminfo(&self) -> (text: Vec<u8>)
        ensures
            text@ == meminfo_text(*self),
    {
        let mut out: Vec<u8> = Vec::new();
        let ghost all = meminfo_lines(*self);
        assert(out@ =~= joined(all.take(0))) by {
            assert(all.take(0).len() == 0);
        }
        push_line(&mut out, "MemTotal".as_bytes(), self.total_memory);
        proof {
            lemma_joined_next(all, 0);
        }
        push_line(&mut out, "MemFree".as_bytes(), self.free_memory);
        proof {
            lemma_joined_next(all, 1);
        }
        push_line(&mut out, "MemAvailable".as_bytes(), self.available_memory);
        proof {
            lemma_joined_next(all, 2);
        }
        push_line(&mut out, "SwapTotal".as_bytes(), self.total_swap);
        proof {
            lemma_joined_next(all, 3);
        }
        push_line(&mut out, "SwapFree".as_bytes(), self.free_swap);
        proof {
            lemma_joined_next(all, 4);
        }
        push_line(&mut out, "Cached".as_bytes(), self.cached_memory);
        proof {
            lemma_joined_next(all, 5);
            assert(all.take(6) =~= all);
        }
        out
    }
}

proof fn lemma_joined_next(all: Seq<Seq<u8>>, i: int)
    requires
        0 <= i < all.len(),
    ensures
        joined(all.take(i + 1)) == joined(all.take(i)) + all[i] + seq![NEWLINE],
{
    assert(all.take(i + 1).drop_last() =~= all.take(i));
    assert(all.take(i + 1).last() == all[i]);
}

/// A decimal numeral is made of digits, at least one, and writes its
/// number.
pub proof fn lemma_decimal(n: nat)
    ensures
        decimal(n).len() > 0,
        all_digits(decimal(n)),
        digits_value(decimal(n)) == n,
    decreases n,
{
    if n >= 10 {
        lemma_decimal(n / 10);
        let front = decimal(n / 10);
        let d = decimal(n);
        assert(d.drop_last() =~= front);
        assert forall|i: int| 0 <= i < d.len() implies is_digit(#[trigger] d[i]) by {
            if i < front.len() {
                assert(d[i] == front[i]);
            }
        }
        assert(d.last() == 48 + n % 10);
        assert(digits_value(d) == digits_value(front) * 10 + n % 10);
    } else {
        let d = decimal(n);
        assert(d.drop_last() =~= Seq::<u8>::empty());
        assert(digits_value(d.drop_last()) == 0);
        assert(d.last() == 48 + n);
        assert(digits_value(d) == n);
    }
}

/// The six keys are keys, and no two of them are the same.
proof fn lemma_keys()
    ensures
        is_key("MemTotal".spec_bytes()),
        is_key("MemFree".spec_bytes()),
        is_key("MemAvailable".spec_bytes()),
        is_key("SwapTotal".spec_bytes()),
        is_key("SwapFree".spec_bytes()),
        is_key("Cached".spec_bytes()),
        "MemTotal".spec_bytes().len() == 8,
        "MemFree".spec_bytes().len() == 7,
        "MemAvailable".spec_bytes().len() == 12,
        "SwapTotal".spec_bytes().len() == 9,
        "SwapFree".spec_bytes().len() == 8,
        "Cached".spec_bytes().len() == 6,
        "MemTotal".spec_bytes()[0] == 77,
        "SwapFree".spec_bytes()[0] == 83,
{
    reveal_strlit("MemTotal");
    reveal_strlit("MemFree");
    reveal_strlit("MemAvailable");
    reveal_strlit("SwapTotal");
    reveal_strlit("SwapFree");
    reveal_strlit("Cached");
    broadcast use vstd::string::is_ascii_spec_bytes;
    assert(vstd::string::is_ascii("MemTotal"));
    assert(vstd::string::is_ascii("MemFree"));
    assert(vstd::string::is_ascii("MemAvailable"));
    assert(vstd::string::is_ascii("SwapTotal"));
    assert(vstd::string::is_ascii("SwapFree"));
    assert(vstd::string::is_ascii("Cached"));
}

/// A text that begins with a line and its line feed has that line first.
proof fn lemma_lines_from_line(line: Seq<u8>, rest: Seq<u8>, cur: Seq<u8>)
    requires
        single_line(line),
    ensures
        lines_from(line + seq![NEWLINE] + rest, cur) == seq![cur + line] + lines(rest),
    decreases line.len(),
{
    let s = line + seq![NEWLINE] + rest;
    if line.len() == 0 {
        assert(s[0] == NEWLINE);
        assert(s.skip(1) =~= rest);
        assert(cur + line =~= cur);
    } else {
        assert(s[0] == line[0]);
        let tail = line.skip(1);
        assert(s.skip(1) =~= tail + seq![NEWLINE] + rest);
        assert forall|i: int| 0 <= i < tail.len() implies #[trigger] tail[i] != NEWLINE by {
            assert(tail[i] == line[i + 1]);
        }
        assert(single_line(tail));
        lemma_lines_from_line(tail, rest, cur.push(line[0]));
        assert(cur.push(line[0]) + tail =~= cur + line);
    }
}

/// The lines of joined lines are those lines, where none holds a line
/// feed.
proof fn lemma_lines_of_joined(all: Seq<Seq<u8>>)
    requires
        forall|k: int| 0 <= k < all.len() ==> single_line(#[trigger] all[k]),
    ensures
        lines(joined(all)) == all,
    decreases all.len(),
{
    lemma_lines_joined_then(all, Seq::<u8>::empty());
    assert(joined(all) + Seq::<u8>::empty() =~= joined(all));
    assert(all + lines(Seq::<u8>::empty()) =~= all);
}

proof fn lemma_lines_joined_then(all: Seq<Seq<u8>>, rest: Seq<u8>)
    requires
        forall|k: int| 0 <= k < all.len() ==> single_line(#[trigger] all[k]),
    ensures
        lines(joined(all) + rest) == all + lines(rest),
    decreases all.len(),
{
    if all.len() == 0 {
        assert(joined(all) + rest =~= rest);
        assert(all + lines(rest) =~= lines(rest));
    } else {
        let front = all.drop_last();
        let line = all.last();
        assert forall|k: int| 0 <= k < front.len() implies single_line(#[trigger] front[k]) by {
            assert(front[k] == all[k]);
        }
        let after = line + seq![NEWLINE] + rest;
        lemma_lines_joined_then(front, after);
        assert(joined(all) + rest =~= joined(front) + after);
        assert(single_line(all[all.len() - 1]));
        lemma_lines_from_line(line, rest, Seq::<u8>::empty());
        assert(Seq::<u8>::empty() + line =~= line);
        assert(front + (seq![line] + lines(rest)) =~= all + lines(rest));
    }
}

/// A text that begins with a word and a space has that word as its first
/// token.
proof fn lemma_tokens_from_word(word: Seq<u8>, rest: Seq<u8>, cur: Seq<u8>)
    requires
        forall|i: int| 0 <= i < word.len() ==> !is_space(#[trigger] word[i]),
        cur.len() + word.len() > 0,
    ensures
        tokens_from(word + seq![SPACE] + rest, cur) == seq![cur + word] + tokens(rest),
    decreases word.len(),
{
    let s = word + seq![SPACE] + rest;
    if word.len() == 0 {
        assert(s[0] == SPACE);
        assert(s.skip(1) =~= rest);
        assert(cur + word =~= cur);
    } else {
        assert(s[0] == word[0]);
        let tail = word.skip(1);
        assert(s.skip(1) =~= tail + seq![SPACE] + rest);
        assert forall|i: int| 0 <= i < tail.len() implies !is_space(#[trigger] tail[i]) by {
            assert(tail[i] == word[i + 1]);
        }
        lemma_tokens_from_word(tail, rest, cur.push(word[0]));
        assert(cur.push(word[0]) + tail =~= cur + word);
    }
}

/// The value of a line reads as the kilobytes it was written from, in
/// bytes.
proof fn lemma_value_reads_back(bytes: u64)
    ensures
        kb_to_bytes(kb_value(meminfo_value(bytes))) == whole_kilobytes(bytes),
{
    let kb = (bytes / KILOBYTE) as nat;
    let d = decimal(kb);
    lemma_decimal(kb);
    let rest = seq![107u8, 66u8];
    assert(meminfo_value(bytes) =~= d + seq![SPACE] + rest);
    assert forall|i: int| 0 <= i < d.len() implies !is_space(#[trigger] d[i]) by {
        assert(is_digit(d[i]));
    }
    lemma_tokens_from_word(d, rest, Seq::<u8>::empty());
    assert(Seq::<u8>::empty() + d =~= d);
    let t = tokens(meminfo_value(bytes));
    assert(t[0] == d);
    assert(is_digit(d[0]));
    assert(unsigned_numeral(d) == Some(kb));
    assert(u64_of(d) == Some(kb as u64));
    assert(kb * 1024 <= bytes);
}

/// A key without whitespace is its own trimmed form.
proof fn lemma_trimmed_word(word: Seq<u8>)
    requires
        word.len() > 0,
        !is_space(word[0]),
        !is_space(word.last()),
    ensures
        trimmed(word) == word,
{
}

/// The line of a key has that key and the written value as its entry.
proof fn lemma_entry_of_line(key: Seq<u8>, bytes: u64)
    requires
        is_key(key),
    ensures
        entry_of(meminfo_line(key, bytes)) == Some((key, meminfo_value(bytes))),
        single_line(meminfo_line(key, bytes)),
{
    let line = meminfo_line(key, bytes);
    let value = meminfo_value(bytes);
    let d = decimal((bytes / KILOBYTE) as nat);
    lemma_decimal((bytes / KILOBYTE) as nat);
    let at = key.len() as int;
    assert(line[at] == COLON);
    assert forall|j: int| 0 <= j < at implies line[j] != COLON by {
        assert(line[j] == key[j]);
    }
    line.index_of_first_ensures(COLON);
    assert(line.contains(COLON));
    assert(line.index_of_first(COLON) == Some(at));
    assert(line.take(at) =~= key);
    lemma_trimmed_word(key);
    let after = line.skip(at + 1);
    assert(after =~= seq![SPACE] + value);
    assert(after.skip(1) =~= value);
    assert(is_space(after[0]));
    assert(value[0] == d[0]);
    assert(is_digit(d[0]));
    assert(trim_start(after) == trim_start(value));
    assert(trim_start(value) == value);
    assert(value.last() == 66);
    assert(trim_end(value) == value);
    assert forall|i: int| 0 <= i < line.len() implies #[trigger] line[i] != NEWLINE by {
        if i < at {
            assert(line[i] == key[i]);
        } else if i >= at + 2 && i < at + 2 + d.len() {
            assert(line[i] == d[i - at - 2]);
            assert(is_digit(d[i - at - 2]));
        }
    }
}

/// What the lookup finds in lines that end with `line`.
proof fn lemma_last_value_push(front: Seq<Seq<u8>>, line: Seq<u8>, key: Seq<u8>)
    ensures
        last_value(front.push(line), key) == (match entry_of(line) {
            Some((k, v)) => if k == key {
                Some(v)
            } else {
                last_value(front, key)
            },
            None => last_value(front, key),
        }),
{
    assert(front.push(line).drop_last() =~= front);
    assert(front.push(line).last() == line);
}

/// Reading the text of a reading gives the reading back, each count cut
/// to whole kilobytes.
pub proof fn lemma_meminfo_round_trip(stats: MemoryStats)
    ensures
        memory_stats_of(meminfo_text(stats)) == in_whole_kilobytes(stats),
{
    lemma_keys();
    let k0 = "MemTotal".spec_bytes();
    let k1 = "MemFree".spec_bytes();
    let k2 = "MemAvailable".spec_bytes();
    let k3 = "SwapTotal".spec_bytes();
    let k4 = "SwapFree".spec_bytes();
    let k5 = "Cached".spec_bytes();
    let all = meminfo_lines(stats);
    let l0 = meminfo_line(k0, stats.total_memory);
    let l1 = meminfo_line(k1, stats.free_memory);
    let l2 = meminfo_line(k2, stats.available_memory);
    let l3 = meminfo_line(k3, stats.total_swap);
    let l4 = meminfo_line(k4, stats.free_swap);
    let l5 = meminfo_line(k5, stats.cached_memory);
    lemma_entry_of_line(k0, stats.total_memory);
    lemma_entry_of_line(k1, stats.free_memory);
    lemma_entry_of_line(k2, stats.available_memory);
    lemma_entry_of_line(k3, stats.total_swap);
    lemma_entry_of_line(k4, stats.free_swap);
    lemma_entry_of_line(k5, stats.cached_memory);
    lemma_lines_of_joined(all);
    let s0 = Seq::<Seq<u8>>::empty();
    let s1 = s0.push(l0);
    let s2 = s1.push(l1);
    let s3 = s2.push(l2);
    let s4 = s3.push(l3);
    let s5 = s4.push(l4);
    let s6 = s5.push(l5);
    assert(s6 =~= all);
    assert forall|key: Seq<u8>| #[trigger]
        last_value(all, key) == (if key == k5 {
            Some(meminfo_value(stats.cached_memory))
        } else if key == k4 {
            Some(meminfo_value(stats.free_swap))
        } else if key == k3 {
            Some(meminfo_value(stats.total_swap))
        } else if key == k2 {
            Some(meminfo_value(stats.available_memory))
        } else if key == k1 {
            Some(meminfo_value(stats.free_memory))
        } else if key == k0 {
            Some(meminfo_value(stats.total_memory))
        } else {
            None
        }) by {
        lemma_last_value_push(s0, l0, key);
        lemma_last_value_push(s1, l1, key);
        lemma_last_value_push(s2, l2, key);
        lemma_last_value_push(s3, l3, key);
        lemma_last_value_push(s4, l4, key);
        lemma_last_value_push(s5, l5, key);
    }
    lemma_value_reads_back(stats.total_memory);
    lemma_value_reads_back(stats.free_memory);
    lemma_value_reads_back(stats.available_memory);
    lemma_value_reads_back(stats.total_swap);
    lemma_value_reads_back(stats.free_swap);
    lemma_value_reads_back(stats.cached_memory);
    let text = meminfo_text(stats);
    assert(size_value(text, k0) == whole_kilobytes(stats.total_memory));
    assert(size_value(text, k1) == whole_kilobytes(stats.free_memory));
    assert(size_value(text, k2) == whole_kilobytes(stats.available_memory));
    assert(size_value(text, k3) == whole_kilobytes(stats.total_swap));
    assert(size_value(text, k4) == whole_kilobytes(stats.free_swap));
    assert(size_value(text, k5) == whole_kilobytes(stats.cached_memory));
}

/// A byte count that was read from kilobytes is in whole kilobytes, unless
/// it is the largest `u64`, which stands for a count that did not fit.
pub proof fn lemma_read_counts_are_whole(kb: u64)
    ensures
        kb_to_bytes(kb) != u64::MAX ==> whole_kilobytes(kb_to_bytes(kb)) == kb_to_bytes(kb),
{
    if kb * 1024 <= u64::MAX {
        assert((kb * 1024) % 1024 == 0) by (nonlinear_arith);
    }
}

/// Reading a text, writing the reading and reading that again changes no
/// byte count, as long as every count of the first reading fit in a `u64`.
pub proof fn lemma_meminfo_reread(content: Seq<u8>)
    requires
        ({
            let stats = memory_stats_of(content);
            &&& stats.total_memory != u64::MAX
            &&& stats.free_memory != u64::MAX
            &&& stats.available_memory != u64::MAX
            &&& stats.total_swap != u64::MAX
            &&& stats.free_swap != u64::MAX
            &&& stats.cached_memory != u64::MAX
        }),
    ensures
        memory_stats_of(meminfo_text(memory_stats_of(content))) == memory_stats_of(content),
{
    let stats = memory_stats_of(content);
    lemma_read_counts_are_whole(kb_value(text_value(content, "MemTotal".spec_bytes())));
    lemma_read_counts_are_whole(kb_value(text_value(content, "MemFree".spec_bytes())));
    lemma_read_counts_are_whole(kb_value(text_value(content, "MemAvailable".spec_bytes())));
    lemma_read_counts_are_whole(kb_value(text_value(content, "SwapTotal".spec_bytes())));
    lemma_read_counts_are_whole(kb_value(text_value(content, "SwapFree".spec_bytes())));
    lemma_read_counts_are_whole(kb_value(text_value(content, "Cached".spec_bytes())));
    lemma_meminfo_round_trip(stats);
}

/// A reading in whole kilobytes survives being written and read exactly.
pub proof fn lemma_meminfo_exact(stats: MemoryStats)
    requires
        in_whole_kilobytes(stats) == stats,
    ensures
        memory_stats_of(meminfo_text(stats)) == stats,
{
    lemma_meminfo_round_trip(stats);
}

} // verus!
