//! Small data models: an atom holding one number, and an array of atoms,
//! each with its PartiQL text; and JSON values.
pub mod json;

use vstd::prelude::*;

pub use json::{JsonModel, JsonValue};
use crate::text::{nat_text, string_from_chars, u64_chars};

verus! {

/// A tuple with one number, `{ '_1': n }`.
#[derive(Debug, Clone, PartialEq)]
pub struct Atom {
    data: u64,
}

/// The text of an atom: `{`, the line `  '_1': n,`, and `}`, each on its own
/// line.
pub open spec fn atom_text(n: u64) -> Seq<char> {
    seq!['{', '\n', ' ', ' ', '\'', '_', '1', '\'', ':', ' '] + nat_text(n as nat) + seq![
        ',',
        '\n',
        '}',
        '\n',
    ]
}

/// The line of an atom within an array: its text indented by two spaces and
/// followed by `,` and a line break.
pub open spec fn atom_line(n: u64) -> Seq<char> {
    seq![' ', ' '] + atom_text(n) + seq![',', '\n']
}

/// The text of an array of atoms: `<<`, the line of each atom, then `>>`.
pub open spec fn array_text(ns: Seq<u64>) -> Seq<char> {
    seq!['<', '<', '\n'] + ns.map_values(|n: u64| atom_line(n)).flatten() + seq!['>', '>', '\n']
}

fn push_all(out: &mut Vec<char>, s: &Vec<char>)
    ensures
        final(out)@ == old(out)@ + s@,
{
    let mut i: usize = 0;
    while i < s.len()
        invariant
            i <= s@.len(),
            out@ == old(out)@ + s@.take(i as int),
        decreases s@.len() - i,
    {
        out.push(s[i]);
        assert(s@.take(i + 1) =~= s@.take(i as int).push(s@[i as int]));
        i = i + 1;
    }
    assert(s@.take(i as int) =~= s@);
}

fn push_atom_text(out: &mut Vec<char>, n: u64)
    ensures
        final(out)@ == old(out)@ + atom_text(n),
{
    let start: Vec<char> = vec!['{', '\n', ' ', ' ', '\'', '_', '1', '\'', ':', ' '];
    let end: Vec<char> = vec![',', '\n', '}', '\n'];
    push_all(out, &start);
    push_all(out, &u64_chars(n));
    push_all(out, &end);
    assert(final(out)@ =~= old(out)@ + atom_text(n));
}

impl Atom {
    /// The atom holding `v`.
    pub fn new(v: u64) -> (r: Atom)
        ensures
            r.value() == v,
    {
        Atom { data: v }
    }

    /// The number the atom holds.
    pub closed spec fn value(&self) -> u64 {
        self.data
    }

    /// The text of the atom (see `atom_text`).
    pub fn to_string(&self) -> (r: String)
        ensures
            r@ == atom_text(self.value()),
    {
        let mut out: Vec<char> = Vec::new();
        push_atom_text(&mut out, self.data);
        assert(out@ =~= atom_text(self.data));
        string_from_chars(out.as_slice())
    }
}

/// A bag of atoms.
#[derive(Debug, Clone, PartialEq)]
pub struct Array {
    data: Vec<Atom>,
}

impl Array {
    /// The numbers of the atoms, in order.
    pub closed spec fn values(&self) -> Seq<u64> {
        self.data@.map_values(|a: Atom| a.data)
    }

    /// The array of the atoms of `v`, in order.
    pub fn from_slice(v: &[u64]) -> (r: Array)
        ensures
            r.values() == v@,
    {
        let mut data: Vec<Atom> = Vec::new();
        let mut i: usize = 0;
        while i < v.len()
            invariant
                i <= v@.len(),
                data@.map_values(|a: Atom| a.data) == v@.take(i as int),
            decreases v@.len() - i,
        {
            let ghost before = data@;
            data.push(Atom { data: v[i] });
            assert(data@ =~= before.push(Atom { data: v@[i as int] }));
            assert(data@.map_values(|a: Atom| a.data) =~= before.map_values(|a: Atom| a.data).push(
                v@[i as int],
            ));
            assert(v@.take(i + 1) =~= v@.take(i as int).push(v@[i as int]));
            i = i + 1;
        }
        assert(v@.take(i as int) =~= v@);
        Array { data }
    }

    /// The text of the array (see `array_text`).
    pub fn to_string(&self) -> (r: String)
        ensures
            r@ == array_text(self.values()),
    {
        let ghost ns = self.values();
        let mut out: Vec<char> = vec!['<', '<', '\n'];
        let mut i: usize = 0;
        assert(ns.take(0).map_values(|n: u64| atom_line(n)).flatten() =~= Seq::<char>::empty());
        while i < self.data.len()
            invariant
                i <= self.data@.len(),
                ns == self.data@.map_values(|a: Atom| a.data),
                out@ == seq!['<', '<', '\n'] + ns.take(i as int).map_values(|n: u64| atom_line(n)).flatten(),
            decreases self.data@.len() - i,
        {
            let ghost before = out@;
            assert(ns[i as int] == self.data@[i as int].data);
            out.push(' ');
            out.push(' ');
            let ghost mid = out@;
            assert(mid =~= before + seq![' ', ' ']);
            push_atom_text(&mut out, self.data[i].data);
            let ghost mid2 = out@;
            out.push(',');
            out.push('\n');
            assert(out@ =~= mid2 + seq![',', '\n']);
            proof {
                assert(ns.take(i + 1).map_values(|n: u64| atom_line(n)) =~= ns.take(i as int).map_values(|n: u64| atom_line(n)).push(
                    atom_line(ns[i as int]),
                ));
                ns.take(i as int).map_values(|n: u64| atom_line(n)).lemma_flatten_push(atom_line(ns[i as int]));
                assert(mid2 == mid + atom_text(ns[i as int]));
                assert(out@ =~= before + (seq![' ', ' '] + atom_text(ns[i as int]) + seq![',', '\n']));
                assert(out@ =~= before + atom_line(ns[i as int]));
            }
            i = i + 1;
        }
        out.push('>');
        out.push('>');
        out.push('\n');
        assert(ns.take(i as int) =~= ns);
        assert(out@ =~= array_text(ns));
        string_from_chars(out.as_slice())
    }
}

} // verus!
