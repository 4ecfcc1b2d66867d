//! The archive of a receiver of position reports.
//!
//! A receiver gets the reports as the location worker words them, with the
//! name or the MMSI of the vessel in front of the sentence, and files each
//! sentence by vessel, year and kind of sentence.

use vstd::prelude::*;
use crate::lines::{find_byte, first_byte};
use crate::text::{decimal, push_bytes, push_decimal};

verus! {

/// Where a sentence is filed, and what is written there.
#[derive(Debug, PartialEq, Eq)]
pub struct ArchiveEntry {
    /// The name of the file: `{vessel}_{year}_{kind}.db`.
    pub file_name: Vec<u8>,
    /// The sentence, ended by a carriage return and a line feed.
    pub record: Vec<u8>,
}

/// The letter in lower case, if the byte is an ASCII letter in upper case.
pub open spec fn lower(b: u8) -> u8 {
    if 'A' as u8 <= b <= 'Z' as u8 {
        (b + 32) as u8
    } else {
        b
    }
}

/// The year as it stands in a file name.
pub open spec fn year_digits(year: i32) -> Seq<u8> {
    if year < 0 {
        seq!['-' as u8] + decimal((-year) as nat)
    } else {
        decimal(year as nat)
    }
}

/// The file name and the record for a line that was received in `year`.
///
/// The vessel is what stands before the first `$` of the line, the
/// sentence what follows from there, and the kind of the sentence its
/// fourth to sixth byte. A line with nothing before the `$`, with no `$`,
/// or with a sentence too short to name its kind is not filed.
pub open spec fn archive_entry(line: Seq<u8>, year: i32) -> Option<(Seq<u8>, Seq<u8>)> {
    let i = first_byte(line, '$' as u8);
    if 0 < i < line.len() && line.len() - i >= 6 {
        let sentence = line.subrange(i, line.len() as int);
        Some(
            (
                line.subrange(0, i) + seq!['_' as u8] + year_digits(year) + seq![
                    '_' as u8,
                    lower(sentence[3]),
                    lower(sentence[4]),
                    lower(sentence[5]),
                    '.' as u8,
                    'd' as u8,
                    'b' as u8,
                ],
                sentence + seq!['\r' as u8, '\n' as u8],
            ),
        )
    } else {
        None
    }
}

/// The letter in lower case, if the byte is an ASCII letter in upper case.
fn to_lower(b: u8) -> (r: u8)
    ensures
        r == lower(b),
{
    if 'A' as u8 <= b && b <= 'Z' as u8 {
        b + 32
    } else {
        b
    }
}

/// Decides where a line that was received in `year` is filed, and what is
/// written there.
pub fn process_message(line: &[u8], year: i32) -> (r: Option<ArchiveEntry>)
    ensures
        match archive_entry(line@, year) {
            Some((file_name, record)) => r matches Some(entry) && entry.file_name@ == file_name
                && entry.record@ == record,
            None => r is None,
        },
{
    let n = line.len();
    assert(line@.subrange(0, n as int) =~= line@);
    let i = find_byte(line, 0, '$' as u8);
    if i == 0 || i >= n || n - i < 6 {
        return None;
    }
    let mut file_name: Vec<u8> = Vec::new();
    push_bytes(&mut file_name, vstd::slice::slice_subrange(line, 0, i));
    file_name.push('_' as u8);
    let wide: i64 = year as i64;
    if wide < 0 {
        file_name.push('-' as u8);
        push_decimal(&mut file_name, (-wide) as u64);
    } else {
        push_decimal(&mut file_name, wide as u64);
    }
    let ghost named = file_name@;
    assert(named =~= line@.subrange(0, i as int) + seq!['_' as u8] + year_digits(year));
    file_name.push('_' as u8);
    file_name.push(to_lower(line[i + 3]));
    file_name.push(to_lower(line[i + 4]));
    file_name.push(to_lower(line[i + 5]));
    file_name.push('.' as u8);
    file_name.push('d' as u8);
    file_name.push('b' as u8);
    let mut record: Vec<u8> = Vec::new();
    push_bytes(&mut record, vstd::slice::slice_subrange(line, i, n));
    record.push('\r' as u8);
    record.push('\n' as u8);
    proof {
        let sentence = line@.subrange(i as int, n as int);
        assert(sentence[3] == line@[i + 3]);
        assert(sentence[4] == line@[i + 4]);
        assert(sentence[5] == line@[i + 5]);
        assert(file_name@ =~= archive_entry(line@, year)->Some_0.0);
        assert(record@ =~= archive_entry(line@, year)->Some_0.1);
    }
    Some(ArchiveEntry { file_name, record })
}

} // verus!
