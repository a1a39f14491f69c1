//! What is handed to FFmpeg to join the downloaded segments into one file.
use vstd::prelude::*;
use crate::text::{lines, lines_from, push_char, strip_cr};

verus! {

/// Where the program to run is found.
#[derive(Debug)]
pub struct FFmpegMerger {
    pub ffmpeg_path: String,
}

impl Default for FFmpegMerger {
    /// The `ffmpeg` found on the search path.
    fn default() -> (r: FFmpegMerger)
        ensures
            r.ffmpeg_path@ == "ffmpeg"@,
    {
        FFmpegMerger { ffmpeg_path: "ffmpeg".to_owned() }
    }
}

/// The name of the list file that tells FFmpeg which segments to join.
pub const FILE_LIST_NAME: &'static str = "filelist.txt";

/// One line of the list file: `file '<path>'`.
pub open spec fn list_entry(file: Seq<char>) -> Seq<char> {
    "file '"@ + file + "'"@
}

/// Lines joined with `'\n'` between them, and none after the last.
pub open spec fn joined_lines(lines: Seq<Seq<char>>) -> Seq<char>
    decreases lines.len(),
{
    if lines.len() == 0 {
        Seq::empty()
    } else if lines.len() == 1 {
        lines[0]
    } else {
        joined_lines(lines.drop_last()) + seq!['\n'] + lines.last()
    }
}

/// The contents of the list file for the given segment files, in order.
pub open spec fn file_list_text(files: Seq<String>) -> Seq<char> {
    joined_lines(files.map_values(|f: String| list_entry(f@)))
}

/// The arguments FFmpeg is run with: overwrite the output, read the concat list from
/// `file_list` without restricting its paths, copy the streams as they are, write `output`.
pub open spec fn merge_args_of(file_list: Seq<char>, output: Seq<char>) -> Seq<Seq<char>> {
    seq![
        "-y"@,
        "-f"@,
        "concat"@,
        "-safe"@,
        "0"@,
        "-i"@,
        file_list,
        "-c"@,
        "copy"@,
        output,
    ]
}

proof fn lemma_lines_skip_plain(a: Seq<char>, rest: Seq<char>, cur: Seq<char>)
    requires
        !a.contains('\n'),
    ensures
        lines_from(a + rest, cur) == lines_from(rest, cur + a),
    decreases a.len(),
{
    if a.len() == 0 {
        assert(a + rest =~= rest);
        assert(cur + a =~= cur);
    } else {
        assert(a[0] != '\n') by {
            if a[0] == '\n' {
                assert(a.contains('\n'));
            }
        }
        assert((a + rest)[0] == a[0]);
        assert((a + rest).drop_first() =~= a.drop_first() + rest);
        assert(!a.drop_first().contains('\n')) by {
            if a.drop_first().contains('\n') {
                let j = choose|j: int| 0 <= j < a.drop_first().len() && a.drop_first()[j] == '\n';
                assert(a[j + 1] == '\n');
            }
        }
        lemma_lines_skip_plain(a.drop_first(), rest, cur.push(a[0]));
        assert(cur.push(a[0]) + a.drop_first() =~= cur + a);
    }
}

/// A line that holds no `'\n'` and does not end with `'\r'`.
pub open spec fn plain_line(l: Seq<char>) -> bool {
    l.len() > 0 && !l.contains('\n') && l.last() != '\r'
}

proof fn lemma_lines_of_joined_then(ls: Seq<Seq<char>>, t: Seq<char>)
    requires
        ls.len() > 0,
        forall|i: int| 0 <= i < ls.len() ==> plain_line(#[trigger] ls[i]),
    ensures
        lines_from(joined_lines(ls) + seq!['\n'] + t, Seq::empty()) == ls + lines_from(
            t,
            Seq::empty(),
        ),
    decreases ls.len(),
{
    let nl = seq!['\n'];
    let last = ls.last();
    assert(plain_line(ls[ls.len() - 1]));
    lemma_lines_skip_plain(last, nl + t, Seq::empty());
    assert(Seq::<char>::empty() + last =~= last);
    assert((nl + t).drop_first() =~= t);
    assert(strip_cr(last) == last);
    assert(lines_from(last + (nl + t), Seq::empty()) == seq![last] + lines_from(t, Seq::empty()));
    if ls.len() == 1 {
        assert(joined_lines(ls) == ls[0]);
        assert(joined_lines(ls) + nl + t =~= last + (nl + t));
        assert(seq![last] + lines_from(t, Seq::empty()) =~= ls + lines_from(t, Seq::empty()));
    } else {
        let front = ls.drop_last();
        assert forall|i: int| 0 <= i < front.len() implies plain_line(#[trigger] front[i]) by {
            assert(front[i] == ls[i]);
        }
        lemma_lines_of_joined_then(front, last + (nl + t));
        assert(joined_lines(ls) + nl + t =~= joined_lines(front) + nl + (last + (nl + t)));
        assert(front + (seq![last] + lines_from(t, Seq::empty())) =~= ls + lines_from(
            t,
            Seq::empty(),
        ));
    }
}

/// Lines that hold no `'\n'` and do not end with `'\r'`, once joined, read back as the
/// same lines.
pub proof fn lemma_joined_lines_read_back(ls: Seq<Seq<char>>)
    requires
        forall|i: int| 0 <= i < ls.len() ==> plain_line(#[trigger] ls[i]),
    ensures
        lines(joined_lines(ls)) == ls,
{
    if ls.len() == 1 {
        assert(plain_line(ls[0]));
        lemma_lines_skip_plain(ls[0], Seq::empty(), Seq::empty());
        assert(ls[0] + Seq::<char>::empty() =~= ls[0]);
        assert(Seq::<char>::empty() + ls[0] =~= ls[0]);
        assert(lines_from(Seq::empty(), ls[0]) =~= seq![ls[0]]);
        assert(seq![ls[0]] =~= ls);
    } else if ls.len() > 1 {
        let front = ls.drop_last();
        let last = ls.last();
        assert(plain_line(ls[ls.len() - 1]));
        assert forall|i: int| 0 <= i < front.len() implies plain_line(#[trigger] front[i]) by {
            assert(front[i] == ls[i]);
        }
        lemma_lines_of_joined_then(front, last);
        lemma_lines_skip_plain(last, Seq::empty(), Seq::empty());
        assert(last + Seq::<char>::empty() =~= last);
        assert(Seq::<char>::empty() + last =~= last);
        assert(lines_from(last, Seq::empty()) =~= seq![last]);
        assert(front + seq![last] =~= ls);
    } else {
        assert(ls =~= Seq::<Seq<char>>::empty());
    }
}

/// Read back line by line, the list file names each segment file once, in order, provided
/// no file name holds a line break.
pub proof fn lemma_file_list_reads_back(files: Seq<String>)
    requires
        forall|i: int| 0 <= i < files.len() ==> !(#[trigger] files[i])@.contains('\n'),
    ensures
        lines(file_list_text(files)) == files.map_values(|f: String| list_entry(f@)),
{
    reveal_strlit("file '");
    reveal_strlit("'");
    let ls = files.map_values(|f: String| list_entry(f@));
    assert forall|i: int| 0 <= i < ls.len() implies plain_line(#[trigger] ls[i]) by {
        let f = files[i]@;
        let e = list_entry(f);
        assert(e == "file '"@ + f + "'"@);
        assert(e.last() == '\'');
        assert(!e.contains('\n')) by {
            if e.contains('\n') {
                let j = choose|j: int| 0 <= j < e.len() && e[j] == '\n';
                if j < 6 {
                    assert(e[j] == "file '"@[j]);
                } else if j < 6 + f.len() {
                    assert(e[j] == f[j - 6]);
                    assert(f.contains('\n'));
                } else {
                    assert(e[j] == '\'');
                }
            }
        }
    }
    lemma_joined_lines_read_back(ls);
}

impl FFmpegMerger {
    /// A merger that runs the program at `ffmpeg_path`.
    pub fn new(ffmpeg_path: &str) -> (r: FFmpegMerger)
        ensures
            r.ffmpeg_path@ == ffmpeg_path@,
    {
        FFmpegMerger { ffmpeg_path: ffmpeg_path.to_owned() }
    }

    /// The contents of the list file for `ts_files`: one line `file '<path>'` per file,
    /// in order, separated by `'\n'`.
    pub fn file_list_content(&self, ts_files: &[String]) -> (r: String)
        ensures
            r@ == file_list_text(ts_files@),
    {
        let ghost entries = ts_files@.map_values(|f: String| list_entry(f@));
        let mut out = String::new();
        let mut i: usize = 0;
        while i < ts_files.len()
            invariant
                i <= ts_files@.len(),
                entries == ts_files@.map_values(|f: String| list_entry(f@)),
                out@ == joined_lines(entries.take(i as int)),
            decreases ts_files@.len() - i,
        {
            let ghost before = out@;
            if i > 0 {
                push_char(&mut out, '\n');
            }
            out.append("file '");
            out.append(ts_files[i].as_str());
            out.append("'");
            proof {
                let taken = entries.take(i + 1);
                assert(taken.drop_last() =~= entries.take(i as int));
                assert(taken.last() == list_entry(ts_files@[i as int]@));
                if i == 0 {
                    assert(out@ =~= taken[0]);
                } else {
                    assert(out@ =~= before + seq!['\n'] + taken.last());
                }
            }
            i = i + 1;
        }
        assert(entries.take(ts_files@.len() as int) =~= entries);
        out
    }
}

/// The arguments to run FFmpeg with to join the files listed in `file_list` into `output`.
pub fn merge_args(file_list: &str, output: &str) -> (r: Vec<String>)
    ensures
        r@.map_values(|a: String| a@) == merge_args_of(file_list@, output@),
{
    let args = vec![
        "-y".to_owned(),
        "-f".to_owned(),
        "concat".to_owned(),
        "-safe".to_owned(),
        "0".to_owned(),
        "-i".to_owned(),
        file_list.to_owned(),
        "-c".to_owned(),
        "copy".to_owned(),
        output.to_owned(),
    ];
    assert(args@.map_values(|a: String| a@) =~= merge_args_of(file_list@, output@));
    args
}

/// The error reported when FFmpeg fails, with what it wrote to its error stream.
pub fn failure_message(stderr: &str) -> (r: String)
    ensures
        r@ == "FFmpeg error: "@ + stderr@,
{
    let mut m = "FFmpeg error: ".to_owned();
    m.append(stderr);
    m
}

} // verus!
