//! The sink that a listing is written to.
//!
//! Listing hands each item name to a [`Logger`], one name per call. The
//! library knows a sink by the lines it has accepted, so that it can say what
//! a listing wrote. [`MemoryLogger`] keeps those lines where a caller can read
//! them. A sink that only passes text on, to a console for one, is a
//! [`Printer`]; [`PrinterLogger`] makes a `Logger` of it.

use vstd::prelude::*;

verus! {

/// A sink that accepts one line of text at a time.
pub trait Logger {
    /// The lines that the sink has accepted so far, oldest first.
    spec fn printed(&self) -> Seq<Seq<char>>;

    /// Hands one line to the sink, which adds it behind the lines it has.
    fn print(&mut self, value: String)
        ensures
            final(self).printed() == old(self).printed().push(value@),
    ;
}

/// A sink that keeps the lines in memory, in the order in which they came.
pub struct MemoryLogger {
    pub lines: Vec<String>,
}

impl MemoryLogger {
    /// A sink that holds no line yet.
    pub fn new() -> (logger: MemoryLogger)
        ensures
            logger.printed() == Seq::<Seq<char>>::empty(),
    {
        let logger = MemoryLogger { lines: Vec::new() };
        assert(logger.lines.deep_view() =~= Seq::<Seq<char>>::empty());
        logger
    }
}

impl Default for MemoryLogger {
    fn default() -> (logger: MemoryLogger)
        ensures
            logger.printed() == Seq::<Seq<char>>::empty(),
    {
        MemoryLogger::new()
    }
}

impl Logger for MemoryLogger {
    open spec fn printed(&self) -> Seq<Seq<char>> {
        self.lines.deep_view()
    }

    fn print(&mut self, value: String) {
        self.lines.push(value);
        assert(self.lines.deep_view() =~= old(self).lines.deep_view().push(value@));
    }
}

/// Something that text can be passed on to, one line at a time, and of which
/// nothing more is known: what becomes of a line is the printer's affair.
pub trait Printer {
    /// Takes one line.
    fn print(&mut self, value: String);
}

/// The sink that passes every line on to a [`Printer`]. The lines it has
/// accepted are those it has passed on, in that order.
pub struct PrinterLogger<P: Printer> {
    printer: P,
    passed_on: Ghost<Seq<Seq<char>>>,
}

impl<P: Printer> PrinterLogger<P> {
    /// The printer that the lines are passed on to.
    pub closed spec fn printer(&self) -> P {
        self.printer
    }

    /// A sink in front of `printer` that has passed nothing on yet.
    pub fn new(printer: P) -> (logger: PrinterLogger<P>)
        ensures
            logger.printer() == printer,
            logger.printed() == Seq::<Seq<char>>::empty(),
    {
        PrinterLogger { printer, passed_on: Ghost(Seq::empty()) }
    }

    /// Gives the printer back.
    pub fn into_printer(self) -> (printer: P)
        ensures
            printer == self.printer(),
    {
        self.printer
    }
}

impl<P: Printer> Logger for PrinterLogger<P> {
    closed spec fn printed(&self) -> Seq<Seq<char>> {
        self.passed_on@
    }

    fn print(&mut self, value: String) {
        self.passed_on = Ghost(self.passed_on@.push(value@));
        self.printer.print(value);
    }
}

} // verus!
