//! What people are told: a list of lines, whatever draws them.
use vstd::prelude::*;

verus! {

/// One line of a report.
#[derive(Debug, PartialEq, Eq)]
pub enum Line {
    Title(String),
    Section(String),
    Field { name: String, value: String },
    Text(String),
    /// Why something stands still, with its code.
    Reason(String),
    /// What can be done next.
    Next(Vec<String>),
}

/// A line, mathematically.
pub enum LineView {
    Title(Seq<char>),
    Section(Seq<char>),
    Field { name: Seq<char>, value: Seq<char> },
    Text(Seq<char>),
    Reason(Seq<char>),
    Next(Seq<Seq<char>>),
}

impl View for Line {
    type V = LineView;

    open spec fn view(&self) -> LineView {
        match *self {
            Line::Title(s) => LineView::Title(s@),
            Line::Section(s) => LineView::Section(s@),
            Line::Field { name, value } => LineView::Field { name: name@, value: value@ },
            Line::Text(s) => LineView::Text(s@),
            Line::Reason(s) => LineView::Reason(s@),
            Line::Next(steps) => LineView::Next(crate::text::texts(steps@)),
        }
    }
}

#[derive(Debug, PartialEq, Eq)]
pub struct Report {
    pub lines: Vec<Line>,
}

impl View for Report {
    type V = Seq<LineView>;

    open spec fn view(&self) -> Seq<LineView> {
        self.lines@.map_values(|l: Line| l@)
    }
}

/// A field of a report.
pub open spec fn field(name: Seq<char>, value: Seq<char>) -> LineView {
    LineView::Field { name, value }
}

/// A field of a report where there is a value.
pub open spec fn field_opt(name: Seq<char>, value: Option<Seq<char>>) -> Seq<LineView> {
    match value {
        Some(v) => seq![field(name, v)],
        None => Seq::empty(),
    }
}

impl Report {
    pub fn empty() -> (r: Self)
        ensures
            r@ == Seq::<LineView>::empty(),
    {
        let r: Report = Report { lines: Vec::new() };
        assert(r@ =~= Seq::<LineView>::empty());
        r
    }

    pub fn new(title: &str) -> (r: Self)
        ensures
            r@ == seq![LineView::Title(title@)],
    {
        let mut r: Report = Report::empty();
        r.push(Line::Title(title.to_owned()));
        assert(r@ =~= seq![LineView::Title(title@)]);
        r
    }

    fn push(&mut self, line: Line)
        ensures
            final(self)@ == old(self)@.push(line@),
    {
        let ghost before = self@;
        self.lines.push(line);
        assert(self@ =~= before.push(line@));
    }

    pub fn section(&mut self, title: &str)
        ensures
            final(self)@ == old(self)@.push(LineView::Section(title@)),
    {
        self.push(Line::Section(title.to_owned()));
    }

    pub fn field(&mut self, name: &str, value: &str)
        ensures
            final(self)@ == old(self)@.push(crate::report::field(name@, value@)),
    {
        self.push(Line::Field { name: name.to_owned(), value: value.to_owned() });
    }

    pub fn field_opt(&mut self, name: &str, value: &Option<String>)
        ensures
            final(self)@ == old(self)@ + crate::report::field_opt(
                name@,
                crate::planning::validation::message(*value),
            ),
    {
        let ghost before = self@;
        match value {
            Some(v) => {
                self.field(name, v.as_str());
                assert(self@ =~= before + seq![crate::report::field(name@, v@)]);
            },
            None => {
                assert(self@ =~= before + Seq::<LineView>::empty());
            },
        }
    }

    pub fn text(&mut self, line: &str)
        ensures
            final(self)@ == old(self)@.push(LineView::Text(line@)),
    {
        self.push(Line::Text(line.to_owned()));
    }

    pub fn reason(&mut self, reason: &str)
        ensures
            final(self)@ == old(self)@.push(LineView::Reason(reason@)),
    {
        self.push(Line::Reason(reason.to_owned()));
    }

    pub fn next(&mut self, steps: Vec<String>)
        ensures
            final(self)@ == old(self)@.push(LineView::Next(crate::text::texts(steps@))),
    {
        self.push(Line::Next(steps));
    }
}

} // verus!
