//! Turning an argument list into a configuration, and the configuration into
//! a report over a file's content.
use vstd::prelude::*;
use vstd::utf8::*;
use crate::counting::{
    byte_count, char_count, characters_in, line_count, lines_in, word_count, words_in,
};

verus! {

/// One of the four statistics that a report can hold.
#[derive(Clone, Copy, Debug, PartialEq, Eq, Structural)]
pub enum Metric {
    Bytes,
    Lines,
    Words,
    Characters,
}

/// Why a configuration could not be built or a metric not computed.
#[derive(Clone, Copy, Debug, PartialEq, Eq, Structural)]
pub enum ProcessingError {
    /// Fewer arguments than a file name after the program name.
    InvalidInput,
    /// A line record that is not valid UTF-8, for words and characters.
    InvalidData,
}

/// The metric that a flag character selects, if any.
pub open spec fn flag_metric(c: char) -> Option<Metric> {
    if c == 'c' {
        Some(Metric::Bytes)
    } else if c == 'l' {
        Some(Metric::Lines)
    } else if c == 'w' {
        Some(Metric::Words)
    } else if c == 'm' {
        Some(Metric::Characters)
    } else {
        None
    }
}

/// The metrics that `flags` selects, one per recognised flag, in order.
pub open spec fn requested(flags: Seq<char>) -> Seq<Metric>
    decreases flags.len(),
{
    if flags.len() == 0 {
        Seq::empty()
    } else {
        let rest = requested(flags.drop_last());
        match flag_metric(flags.last()) {
            Some(m) => rest.push(m),
            None => rest,
        }
    }
}

/// `s` with every dash left out.
pub open spec fn without_dashes(s: Seq<char>) -> Seq<char>
    decreases s.len(),
{
    if s.len() == 0 {
        Seq::empty()
    } else if s.last() == '-' {
        without_dashes(s.drop_last())
    } else {
        without_dashes(s.drop_last()).push(s.last())
    }
}

/// The flags used when none are given.
pub open spec fn default_flags() -> Seq<char> {
    seq!['c', 'l', 'w']
}

/// The name under which a metric is reported.
pub open spec fn metric_name(m: Metric) -> Seq<char> {
    match m {
        Metric::Bytes => "bytes"@,
        Metric::Lines => "lines"@,
        Metric::Words => "words"@,
        Metric::Characters => "characters"@,
    }
}

/// The value of a metric on `b`; words and characters need valid UTF-8.
pub open spec fn metric_value(m: Metric, b: Seq<u8>) -> Option<nat> {
    match m {
        Metric::Bytes => Some(b.len()),
        Metric::Lines => Some(lines_in(b)),
        Metric::Words => if valid_utf8(b) {
            Some(words_in(decode_utf8(b)))
        } else {
            None
        },
        Metric::Characters => if valid_utf8(b) {
            Some(characters_in(b))
        } else {
            None
        },
    }
}

/// The decimal digit of `d`.
pub open spec fn digit(d: nat) -> char {
    ((48 + d % 10) as u8) as char
}

/// The decimal numeral of `n`, without leading zeros.
pub open spec fn decimal(n: nat) -> Seq<char>
    decreases n,
{
    if n < 10 {
        seq![digit(n)]
    } else {
        decimal(n / 10).push(digit(n % 10))
    }
}

/// One line of a report: `<name> <value> in <filename> \n`.
pub open spec fn report_line(name: Seq<char>, value: nat, filename: Seq<char>) -> Seq<char> {
    name + seq![' '] + decimal(value) + " in "@ + filename + " \n"@
}

/// Whether every metric of `ms` has a value on `b`.
pub open spec fn all_available(ms: Seq<Metric>, b: Seq<u8>) -> bool {
    forall|i: int| 0 <= i < ms.len() ==> (#[trigger] metric_value(ms[i], b)) is Some
}

/// The lines of the metrics `ms` on `b`, concatenated in order.
pub open spec fn report_text(ms: Seq<Metric>, b: Seq<u8>, filename: Seq<char>) -> Seq<char>
    decreases ms.len(),
{
    if ms.len() == 0 {
        Seq::empty()
    } else {
        let m = ms.last();
        let line = match metric_value(m, b) {
            Some(v) => report_line(metric_name(m), v, filename),
            None => Seq::empty(),
        };
        report_text(ms.drop_last(), b, filename) + line
    }
}

/// Dashes select no metric, so filtering them out of a flag bundle changes
/// nothing: the metrics are those of the bundle's own characters that name
/// one, in the bundle's order, and every other character is skipped.
pub proof fn lemma_bundle_metrics(bundle: Seq<char>)
    ensures
        requested(without_dashes(bundle)) == requested(bundle),
    decreases bundle.len(),
{
    if bundle.len() > 0 {
        lemma_bundle_metrics(bundle.drop_last());
        let w = without_dashes(bundle.drop_last());
        if bundle.last() != '-' {
            assert(w.push(bundle.last()).drop_last() =~= w);
        }
    }
}

/// The report of a flag bundle holds exactly one line for each character of
/// the bundle that names a metric, in the order those characters appear.
pub proof fn lemma_bundle_report(bundle: Seq<char>, content: Seq<u8>, filename: Seq<char>)
    ensures
        all_available(requested(without_dashes(bundle)), content) == all_available(
            requested(bundle),
            content,
        ),
        report_text(requested(without_dashes(bundle)), content, filename) == report_text(
            requested(bundle),
            content,
            filename,
        ),
{
    lemma_bundle_metrics(bundle);
}

/// With the default flags the report is the byte, line and word lines, in
/// that order, and has no character line.
pub proof fn lemma_default_report(content: Seq<u8>, filename: Seq<char>)
    ensures
        requested(default_flags()) == seq![Metric::Bytes, Metric::Lines, Metric::Words],
        all_available(requested(default_flags()), content) <==> valid_utf8(content),
        valid_utf8(content) ==> report_text(requested(default_flags()), content, filename)
            == report_line("bytes"@, content.len(), filename) + report_line(
            "lines"@,
            lines_in(content),
            filename,
        ) + report_line("words"@, words_in(decode_utf8(content)), filename),
{
    let f = default_flags();
    let ms = seq![Metric::Bytes, Metric::Lines, Metric::Words];
    assert(f.drop_last().drop_last().drop_last() =~= Seq::<char>::empty());
    assert(f.drop_last().drop_last() =~= seq!['c']);
    assert(f.drop_last() =~= seq!['c', 'l']);
    assert(ms.drop_last().drop_last().drop_last() =~= Seq::<Metric>::empty());
    assert(ms.drop_last().drop_last() =~= seq![Metric::Bytes]);
    assert(ms.drop_last() =~= seq![Metric::Bytes, Metric::Lines]);
    assert(requested(Seq::<char>::empty()) =~= Seq::<Metric>::empty());
    assert(seq!['c'].last() == 'c');
    assert(requested(f.drop_last().drop_last()) =~= ms.drop_last().drop_last());
    assert(requested(f.drop_last()) =~= ms.drop_last());
    assert(requested(f) =~= ms);
    if !valid_utf8(content) {
        assert(metric_value(ms[2], content) is None);
    }
    if valid_utf8(content) {
        let b = report_line("bytes"@, content.len(), filename);
        let l = report_line("lines"@, lines_in(content), filename);
        let w = report_line("words"@, words_in(decode_utf8(content)), filename);
        assert(report_text(Seq::<Metric>::empty(), content, filename) =~= Seq::<char>::empty());
        assert(seq![Metric::Bytes].last() == Metric::Bytes);
        assert(report_text(ms.drop_last().drop_last(), content, filename) =~= b);
        assert(report_text(ms.drop_last(), content, filename) =~= b + l);
        assert(report_text(ms, content, filename) =~= b + l + w);
    }
}

/// Relies on `String::push`: the character is appended at the end.
#[verifier::external_body]
fn push_char(s: &mut String, c: char)
    ensures
        final(s)@ == old(s)@.push(c),
{
    s.push(c);
}

/// Appends the decimal numeral of `n` to `s`.
fn push_decimal(s: &mut String, n: usize)
    ensures
        final(s)@ == old(s)@ + decimal(n as nat),
    decreases n,
{
    if n >= 10 {
        push_decimal(s, n / 10);
    }
    let d = (48 + n % 10) as u8;
    push_char(s, d as char);
    proof {
        assert(d as char == digit(n as nat));
        assert(final(s)@ =~= old(s)@ + decimal(n as nat));
    }
}

impl Metric {
    /// The metric that a flag character selects, if any.
    pub fn from_flag(c: char) -> (r: Option<Metric>)
        ensures
            r == flag_metric(c),
    {
        match c {
            'c' => Some(Metric::Bytes),
            'l' => Some(Metric::Lines),
            'w' => Some(Metric::Words),
            'm' => Some(Metric::Characters),
            _ => None,
        }
    }

    /// The name under which the metric is reported.
    pub fn name(&self) -> (r: &'static str)
        ensures
            r@ == metric_name(*self),
    {
        match self {
            Metric::Bytes => "bytes",
            Metric::Lines => "lines",
            Metric::Words => "words",
            Metric::Characters => "characters",
        }
    }
}

/// What to count, and in which file.
pub struct FileProcessingConfig {
    /// The name shown in each report line.
    pub filename: String,
    /// The requested metrics, one character each; unrecognised ones are ignored.
    pub flags: Vec<char>,
    /// The path of the file to read.
    pub query: String,
}

impl FileProcessingConfig {
    /// Builds a configuration from the invocation's arguments, the program
    /// name first. With one more argument it names the file and the default
    /// metrics apply; with two or more the first is a flag bundle, whose
    /// characters other than dashes are the flags, and the second names the
    /// file. Further arguments are ignored.
    pub fn new(args: Vec<String>) -> (r: Result<FileProcessingConfig, ProcessingError>)
        ensures
            args.len() < 2 <==> r is Err,
            r matches Err(e) ==> e == ProcessingError::InvalidInput,
            r matches Ok(cfg) ==> {
                &&& cfg.filename@ == cfg.query@
                &&& args.len() == 2 ==> cfg.query@ == args[1]@ && cfg.flags@ == default_flags()
                &&& args.len() > 2 ==> cfg.query@ == args[2]@ && cfg.flags@ == without_dashes(
                    args[1]@,
                )
            },
    {
        if args.len() < 2 {
            return Err(ProcessingError::InvalidInput);
        }
        if args.len() == 2 {
            let flags: Vec<char> = vec!['c', 'l', 'w'];
            let query = args[1].clone();
            let filename = query.clone();
            assert(flags@ =~= default_flags());
            return Ok(FileProcessingConfig { filename, flags, query });
        }
        let bundle = args[1].as_str();
        let mut flags: Vec<char> = Vec::new();
        for c in it: bundle.chars()
            invariant
                it.seq() == bundle@,
                flags@ == without_dashes(bundle@.take(it.index() as int)),
        {
            assert(bundle@.take(it.index() + 1).drop_last() =~= bundle@.take(it.index() as int));
            if c != '-' {
                flags.push(c);
            }
        }
        assert(bundle@.take(bundle@.len() as int) =~= bundle@);
        let query = args[2].clone();
        let filename = query.clone();
        Ok(FileProcessingConfig { filename, flags, query })
    }

    /// The metrics that the flags select, in order.
    pub fn requested_metrics(&self) -> (r: Vec<Metric>)
        ensures
            r@ == requested(self.flags@),
    {
        let mut metrics: Vec<Metric> = Vec::new();
        let n = self.flags.len();
        let mut i: usize = 0;
        while i < n
            invariant
                n == self.flags@.len(),
                i <= n,
                metrics@ == requested(self.flags@.take(i as int)),
            decreases n - i,
        {
            assert(self.flags@.take(i + 1).drop_last() =~= self.flags@.take(i as int));
            if let Some(m) = Metric::from_flag(self.flags[i]) {
                metrics.push(m);
            }
            i = i + 1;
        }
        assert(self.flags@.take(n as int) =~= self.flags@);
        metrics
    }

    /// One report line for this configuration's file.
    pub fn formatter(&self, data_type: &str, value: usize) -> (r: String)
        ensures
            r@ == report_line(data_type@, value as nat, self.filename@),
    {
        let mut s = String::new();
        s.append(data_type);
        push_char(&mut s, ' ');
        push_decimal(&mut s, value);
        s.append(" in ");
        s.append(self.filename.as_str());
        s.append(" \n");
        assert(s@ =~= report_line(data_type@, value as nat, self.filename@));
        s
    }

    /// The line of the byte count of `content`.
    pub fn get_byte_size(&self, content: &[u8]) -> (r: String)
        ensures
            r@ == report_line("bytes"@, content@.len(), self.filename@),
    {
        self.formatter("bytes", byte_count(content))
    }

    /// The line of the line count of `content`.
    pub fn get_lines_count(&self, content: &[u8]) -> (r: String)
        ensures
            r@ == report_line("lines"@, lines_in(content@), self.filename@),
    {
        self.formatter("lines", line_count(content))
    }

    /// The line of the word count of `content`, which must be valid UTF-8.
    pub fn get_word_count(&self, content: &[u8]) -> (r: Result<String, ProcessingError>)
        ensures
            r is Ok <==> valid_utf8(content@),
            r matches Ok(s) ==> s@ == report_line(
                "words"@,
                words_in(decode_utf8(content@)),
                self.filename@,
            ),
            r matches Err(e) ==> e == ProcessingError::InvalidData,
    {
        match word_count(content) {
            Some(n) => Ok(self.formatter("words", n)),
            None => Err(ProcessingError::InvalidData),
        }
    }

    /// The line of the character count of `content`, which must be valid UTF-8.
    pub fn get_char_count(&self, content: &[u8]) -> (r: Result<String, ProcessingError>)
        ensures
            r is Ok <==> valid_utf8(content@),
            r matches Ok(s) ==> s@ == report_line(
                "characters"@,
                characters_in(content@),
                self.filename@,
            ),
            r matches Err(e) ==> e == ProcessingError::InvalidData,
    {
        match char_count(content) {
            Some(n) => Ok(self.formatter("characters", n)),
            None => Err(ProcessingError::InvalidData),
        }
    }

    /// The report line of metric `m` on `content`.
    pub fn metric_report(&self, m: Metric, content: &[u8]) -> (r: Result<String, ProcessingError>)
        ensures
            r is Ok <==> metric_value(m, content@) is Some,
            r matches Ok(s) ==> s@ == report_line(
                metric_name(m),
                metric_value(m, content@)->0,
                self.filename@,
            ),
            r matches Err(e) ==> e == ProcessingError::InvalidData,
    {
        match m {
            Metric::Bytes => Ok(self.get_byte_size(content)),
            Metric::Lines => Ok(self.get_lines_count(content)),
            Metric::Words => self.get_word_count(content),
            Metric::Characters => self.get_char_count(content),
        }
    }

    /// The report over `content`: the line of each requested metric, in the
    /// order of the flags. Fails, with no output, when a requested metric
    /// has no value on `content`.
    pub fn run(&self, content: &[u8]) -> (r: Result<String, ProcessingError>)
        ensures
            r is Ok <==> all_available(requested(self.flags@), content@),
            r matches Ok(s) ==> s@ == report_text(
                requested(self.flags@),
                content@,
                self.filename@,
            ),
            r matches Err(e) ==> e == ProcessingError::InvalidData,
    {
        let metrics = self.requested_metrics();
        let ghost ms = metrics@;
        let mut formatted_string = String::new();
        let n = metrics.len();
        let mut j: usize = 0;
        while j < n
            invariant
                ms == metrics@,
                ms == requested(self.flags@),
                n == ms.len(),
                j <= n,
                all_available(ms.take(j as int), content@),
                formatted_string@ == report_text(ms.take(j as int), content@, self.filename@),
            decreases n - j,
        {
            let m = metrics[j];
            assert(ms.take(j + 1).drop_last() =~= ms.take(j as int));
            match self.metric_report(m, content) {
                Ok(line) => {
                    formatted_string.append(line.as_str());
                },
                Err(e) => {
                    assert(metric_value(ms[j as int], content@) is None);
                    return Err(e);
                },
            }
            j = j + 1;
        }
        assert(ms.take(n as int) =~= ms);
        Ok(formatted_string)
    }
}

} // verus!
