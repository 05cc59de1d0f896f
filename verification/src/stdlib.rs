//! The built-in functions `print` and `println`, and the text they write.

use vstd::prelude::*;
use vstd::string::StringExecFns;
use crate::model::{all_evaluated, evaluated, Piece, Value};
use crate::object::{lemma_values_of, values_of, Object};

verus! {

/// One write to the output channel.
#[derive(Debug, PartialEq)]
pub enum Chunk {
    /// Text, to be written as it is.
    Text(String),
    /// A floating-point number, given by its bits. The host writes it in
    /// the shortest decimal form that reads back as the same number.
    Float(u32),
    /// The end of a line.
    LineBreak,
}

impl View for Chunk {
    type V = Piece;

    open spec fn view(&self) -> Piece {
        match self {
            Chunk::Text(s) => Piece::Text(s@),
            Chunk::Float(b) => Piece::Float(*b),
            Chunk::LineBreak => Piece::LineBreak,
        }
    }
}

/// What a program has written, in the order of the writes.
#[derive(Debug, PartialEq)]
pub struct Output {
    pub chunks: Vec<Chunk>,
}

impl View for Output {
    type V = Seq<Piece>;

    open spec fn view(&self) -> Seq<Piece> {
        Seq::new(self.chunks.len() as nat, |i: int| self.chunks[i]@)
    }
}

impl Output {
    /// An output with nothing written.
    pub fn new() -> (r: Output)
        ensures
            r@ == Seq::<Piece>::empty(),
    {
        let r = Output { chunks: Vec::new() };
        assert(r@ =~= Seq::<Piece>::empty());
        r
    }

    /// Adds one write at the end.
    pub fn write(&mut self, chunk: Chunk)
        ensures
            final(self)@ == old(self)@.push(chunk@),
    {
        self.chunks.push(chunk);
        assert(self@ =~= old(self)@.push(chunk@));
    }

    fn write_text(&mut self, text: &str)
        ensures
            final(self)@ == old(self)@.push(Piece::Text(text@)),
    {
        self.write(Chunk::Text(String::from_str(text)));
    }
}

/// The decimal digit of a number below ten.
pub open spec fn digit(d: nat) -> Seq<char> {
    if d == 0 {
        "0"@
    } else if d == 1 {
        "1"@
    } else if d == 2 {
        "2"@
    } else if d == 3 {
        "3"@
    } else if d == 4 {
        "4"@
    } else if d == 5 {
        "5"@
    } else if d == 6 {
        "6"@
    } else if d == 7 {
        "7"@
    } else if d == 8 {
        "8"@
    } else {
        "9"@
    }
}

/// The decimal digits of a natural number, without leading zeros.
pub open spec fn digits(n: nat) -> Seq<char>
    decreases n,
{
    if n < 10 {
        digit(n)
    } else {
        digits(n / 10) + digit(n % 10)
    }
}

/// An integer in decimal, with a minus sign where it is negative.
pub open spec fn decimal(i: int) -> Seq<char> {
    if i < 0 {
        "-"@ + digits((-i) as nat)
    } else {
        digits(i as nat)
    }
}

/// The writes that show one value. In display form a string is written as
/// it is; in debug form it stands between double quotes. An array is
/// written as `[`, its elements in debug form with `, ` between them, and
/// `]`, each a write of its own.
pub open spec fn render(v: Value, debug: bool) -> Seq<Piece>
    decreases v, 0nat,
{
    match v {
        Value::Integer(n) => seq![Piece::Text(decimal(n as int))],
        Value::Float(b) => seq![Piece::Float(b)],
        Value::Text(s) => if debug {
            seq![Piece::Text("\""@ + s + "\""@)]
        } else {
            seq![Piece::Text(s)]
        },
        Value::Void => seq![Piece::Text("Void"@)],
        Value::Boolean(b) => if b {
            seq![Piece::Text("Boolean(true)"@)]
        } else {
            seq![Piece::Text("Boolean(false)"@)]
        },
        Value::Array(vs) => seq![Piece::Text("["@)] + render_items(vs, vs.len()) + seq![
            Piece::Text("]"@),
        ],
        Value::Unevaluated(_) => seq![],
    }
}

/// The writes that show the first `n` elements of an array.
pub open spec fn render_items(vs: Seq<Value>, n: nat) -> Seq<Piece>
    decreases vs, n,
{
    if n == 0 || n > vs.len() {
        seq![]
    } else if n == 1 {
        render(vs[0], true)
    } else {
        render_items(vs, (n - 1) as nat) + seq![Piece::Text(", "@)] + render(vs[n - 1], true)
    }
}

/// The writes that show the first `n` arguments of `print`, nothing
/// between them.
pub open spec fn render_all(vs: Seq<Value>, n: nat, debug: bool) -> Seq<Piece>
    decreases n,
{
    if n == 0 || n > vs.len() {
        seq![]
    } else {
        render_all(vs, (n - 1) as nat, debug) + render(vs[n - 1], debug)
    }
}

/// What `print` writes for its arguments.
pub open spec fn printed(vs: Seq<Value>) -> Seq<Piece> {
    render_all(vs, vs.len(), false)
}

/// What `println` writes for its arguments.
pub open spec fn printed_line(vs: Seq<Value>) -> Seq<Piece> {
    printed(vs).push(Piece::LineBreak)
}

fn digit_text(d: u32) -> (r: &'static str)
    requires
        d < 10,
    ensures
        r@ == digit(d as nat),
{
    if d == 0 {
        "0"
    } else if d == 1 {
        "1"
    } else if d == 2 {
        "2"
    } else if d == 3 {
        "3"
    } else if d == 4 {
        "4"
    } else if d == 5 {
        "5"
    } else if d == 6 {
        "6"
    } else if d == 7 {
        "7"
    } else if d == 8 {
        "8"
    } else {
        "9"
    }
}

fn push_digits(text: &mut String, n: u32)
    ensures
        final(text)@ == old(text)@ + digits(n as nat),
    decreases n,
{
    if n < 10 {
        text.append(digit_text(n));
    } else {
        push_digits(text, n / 10);
        text.append(digit_text(n % 10));
        assert(text@ =~= old(text)@ + digits(n as nat));
    }
}

/// An integer in decimal.
pub fn format_integer(n: i32) -> (r: String)
    ensures
        r@ == decimal(n as int),
{
    if n < 0 {
        let mut text = String::from_str("-");
        let wide: i64 = 0 - (n as i64);
        push_digits(&mut text, wide as u32);
        text
    } else {
        let mut text = String::new();
        push_digits(&mut text, n as u32);
        assert(text@ =~= decimal(n as int));
        text
    }
}

fn print_items(items: &Vec<Object>, out: &mut Output)
    requires
        all_evaluated(values_of(items@)),
    ensures
        final(out)@ == old(out)@ + render_items(values_of(items@), items.len() as nat),
    decreases items, 0nat,
{
    let ghost start = out@;
    let ghost vs = values_of(items@);
    proof {
        lemma_values_of(items@);
    }
    let mut i: usize = 0;
    assert(out@ =~= start + render_items(vs, 0));
    while i < items.len()
        invariant
            i <= items.len(),
            vs == values_of(items@),
            vs.len() == items.len(),
            all_evaluated(vs),
            forall|j: int| 0 <= j < items.len() ==> #[trigger] vs[j] == items[j]@,
            out@ == start + render_items(vs, i as nat),
        decreases items.len() - i,
    {
        if i > 0 {
            out.write_text(", ");
        }
        assert(evaluated(vs[i as int]));
        print_one(&items[i], true, out);
        i += 1;
        assert(out@ =~= start + render_items(vs, i as nat));
    }
}

/// Writes one value, in display form or in debug form.
pub fn print_one(obj: &Object, debug: bool, out: &mut Output)
    requires
        evaluated(obj@),
    ensures
        final(out)@ == old(out)@ + render(obj@, debug),
    decreases obj, 1nat,
{
    match obj {
        Object::Integer(n) => {
            out.write(Chunk::Text(format_integer(*n)));
            assert(out@ =~= old(out)@ + render(obj@, debug));
        },
        Object::Float(b) => {
            out.write(Chunk::Float(*b));
            assert(out@ =~= old(out)@ + render(obj@, debug));
        },
        Object::String(s) => {
            if debug {
                let mut quoted = String::from_str("\"");
                quoted.append(s.as_str());
                quoted.append("\"");
                out.write(Chunk::Text(quoted));
            } else {
                out.write(Chunk::Text(s.clone()));
            }
            assert(out@ =~= old(out)@ + render(obj@, debug));
        },
        Object::Void => {
            out.write_text("Void");
            assert(out@ =~= old(out)@ + render(obj@, debug));
        },
        Object::Boolean(b) => {
            if *b {
                out.write_text("Boolean(true)");
            } else {
                out.write_text("Boolean(false)");
            }
            assert(out@ =~= old(out)@ + render(obj@, debug));
        },
        Object::WalkedList(items) => {
            out.write_text("[");
            print_items(items, out);
            out.write_text("]");
            assert(out@ =~= old(out)@ + render(obj@, debug));
        },
        Object::List(_) => {
        },
    }
}

/// Writes each value in turn, nothing between them. With `debug` the
/// strings among them are quoted.
pub fn print_fmt(objs: Vec<Object>, debug: bool, out: &mut Output)
    requires
        all_evaluated(values_of(objs@)),
    ensures
        final(out)@ == old(out)@ + render_all(values_of(objs@), objs.len() as nat, debug),
{
    let ghost start = out@;
    let ghost vs = values_of(objs@);
    proof {
        lemma_values_of(objs@);
    }
    let mut i: usize = 0;
    assert(out@ =~= start + render_all(vs, 0, debug));
    while i < objs.len()
        invariant
            i <= objs.len(),
            vs == values_of(objs@),
            vs.len() == objs.len(),
            all_evaluated(vs),
            forall|j: int| 0 <= j < objs.len() ==> #[trigger] vs[j] == objs[j]@,
            out@ == start + render_all(vs, i as nat, debug),
        decreases objs.len() - i,
    {
        assert(evaluated(vs[i as int]));
        print_one(&objs[i], debug, out);
        i += 1;
        assert(out@ =~= start + render_all(vs, i as nat, debug));
    }
}

/// The built-in `print`: writes its arguments in display form, nothing
/// between them, and returns `Void`.
pub fn print(objs: Vec<Object>, out: &mut Output) -> (r: Object)
    requires
        all_evaluated(values_of(objs@)),
    ensures
        final(out)@ == old(out)@ + printed(values_of(objs@)),
        r@ == Value::Void,
{
    proof {
        lemma_values_of(objs@);
    }
    print_fmt(objs, false, out);
    Object::Void
}

/// The built-in `println`: as `print`, and then the end of the line.
pub fn println(objs: Vec<Object>, out: &mut Output) -> (r: Object)
    requires
        all_evaluated(values_of(objs@)),
    ensures
        final(out)@ == old(out)@ + printed_line(values_of(objs@)),
        r@ == Value::Void,
{
    let ghost vs = values_of(objs@);
    print(objs, out);
    out.write(Chunk::LineBreak);
    assert(out@ =~= old(out)@ + printed_line(vs));
    Object::Void
}

} // verus!
