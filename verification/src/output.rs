//! The lines of a report.

use vstd::prelude::*;

use crate::text::texts;

verus! {

/// A report under construction, line by line.
pub struct ReportText {
    lines: Vec<String>,
}

impl View for ReportText {
    type V = Seq<Seq<char>>;

    closed spec fn view(&self) -> Seq<Seq<char>> {
        texts(self.lines@)
    }
}

impl ReportText {
    /// A report without lines.
    pub fn new() -> (report: Self)
        ensures
            report@ == Seq::<Seq<char>>::empty(),
    {
        let report = ReportText { lines: Vec::new() };
        assert(report@ =~= Seq::<Seq<char>>::empty());
        report
    }

    /// Adds a line.
    pub fn push(&mut self, line: String)
        ensures
            final(self)@ == old(self)@.push(line@),
    {
        let ghost before = self@;
        let ghost shown = line@;
        self.lines.push(line);
        assert(self@ =~= before.push(shown));
    }

    /// Adds a line with a fixed text.
    pub fn push_text(&mut self, line: &str)
        ensures
            final(self)@ == old(self)@.push(line@),
    {
        self.push(line.to_owned());
    }

    /// The lines in order.
    pub fn into_lines(self) -> (lines: Vec<String>)
        ensures
            texts(lines@) == self@,
    {
        self.lines
    }
}

/// A text where a condition holds, nothing otherwise.
pub open spec fn text_if(condition: bool, text: Seq<char>) -> Seq<Seq<char>> {
    if condition {
        seq![text]
    } else {
        seq![]
    }
}

/// A heading with an item on each of the lines below it, or the word `none` where there is no item.
pub open spec fn bulleted(title: Seq<char>, items: Seq<Seq<char>>) -> Seq<Seq<char>> {
    if items.len() == 0 {
        seq![title + ": none"@]
    } else {
        seq![title + ":"@] + items.map_values(|item: Seq<char>| "  - "@ + item)
    }
}

/// Adds a heading with its items.
pub fn print_bulleted(title: &str, items: &Vec<String>, report: &mut ReportText)
    ensures
        final(report)@ == old(report)@ + bulleted(title@, texts(items@)),
{
    let ghost before = report@;
    let mut heading = title.to_owned();
    if items.len() == 0 {
        heading.append(": none");
        report.push(heading);
        assert(report@ =~= before + bulleted(title@, texts(items@)));
        return;
    }
    heading.append(":");
    report.push(heading);
    let ghost start = report@;
    let ghost shown = texts(items@).map_values(|item: Seq<char>| "  - "@ + item);
    for i in 0..items.len()
        invariant
            shown == texts(items@).map_values(|item: Seq<char>| "  - "@ + item),
            report@ =~= start + shown.take(i as int),
    {
        let mut line = "  - ".to_owned();
        line.append(items[i].as_str());
        assert(texts(items@)[i as int] == items@[i as int]@);
        assert(line@ == shown[i as int]);
        assert(shown.take(i + 1) =~= shown.take(i as int).push(shown[i as int]));
        report.push(line);
    }
    assert(shown.take(items@.len() as int) =~= shown);
    assert(report@ =~= before + bulleted(title@, texts(items@)));
}

} // verus!
