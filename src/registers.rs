//! Allocation of numbered machine registers to named variables, as a code
//! generator for vector arithmetic uses it.
use vstd::prelude::*;

verus! {

/// Decimal digits of a number, most significant first.
pub open spec fn decimal(n: nat) -> Seq<char>
    decreases n,
{
    if n < 10 {
        seq![digit_char(n)]
    } else {
        decimal(n / 10) + seq![digit_char(n % 10)]
    }
}

/// The character of one decimal digit.
pub open spec fn digit_char(d: nat) -> char {
    if d == 0 {
        '0'
    } else if d == 1 {
        '1'
    } else if d == 2 {
        '2'
    } else if d == 3 {
        '3'
    } else if d == 4 {
        '4'
    } else if d == 5 {
        '5'
    } else if d == 6 {
        '6'
    } else if d == 7 {
        '7'
    } else if d == 8 {
        '8'
    } else {
        '9'
    }
}

/// Name of the temporary variable that holds register `n` of a category:
/// `__tmp_<category>_var<n>`.
pub open spec fn tmp_var_name(category: Seq<char>, n: nat) -> Seq<char> {
    seq!['_', '_', 't', 'm', 'p', '_'] + category + seq!['_', 'v', 'a', 'r'] + decimal(n)
}

/// Message for a variable name that no register holds:
/// `Unrecognized <category> variable name: <name>`.
pub open spec fn unrecognized_message(category: Seq<char>, name: Seq<char>) -> Seq<char> {
    "Unrecognized "@ + category + " variable name: "@ + name
}

/// Relies on std's `format!` to write the temporary variable name in decimal.
#[verifier::external_body]
fn format_tmp_var_name(category: &str, n: u8) -> (r: String)
    ensures
        r@ == tmp_var_name(category@, n as nat),
{
    format!("__tmp_{}_var{}", category, n)
}

/// Relies on std's `format!` to write the message for an unknown variable name.
#[verifier::external_body]
fn format_unrecognized(category: &str, name: &str) -> (r: String)
    ensures
        r@ == unrecognized_message(category@, name@),
{
    format!("Unrecognized {} variable name: {}", category, name)
}

/// Registers of one category, numbered from 1 up to `max_number`, and the
/// variables that hold them.
pub struct Registers {
    pub category: &'static str,
    pub max_number: u8,
    pub last_number: u8,
    /// Variable name, register number and whether it is a function argument.
    pub mapping: Vec<(String, (u8, bool))>,
}

/// No two entries share a variable name.
pub open spec fn names_unique(m: Seq<(String, (u8, bool))>) -> bool {
    forall|i: int, j: int| 0 <= i < j < m.len() ==> m[i].0@ != m[j].0@
}

impl Registers {
    /// Each variable name appears once, and handed-out numbers stay within the maximum.
    pub open spec fn wf(&self) -> bool {
        names_unique(self.mapping@) && self.last_number <= self.max_number
    }

    /// An empty allocator for one category.
    pub fn new(category: &'static str, max_number: u8) -> (r: Registers)
        ensures
            r.wf(),
            r.category == category,
            r.max_number == max_number,
            r.last_number == 0,
            r.mapping@.len() == 0,
    {
        Registers { category, max_number, last_number: 0, mapping: Vec::new() }
    }

    /// Hands out the next register number, recording it under its temporary
    /// variable name; `None` once all are taken.
    pub fn next_register(&mut self) -> (r: Option<u8>)
        requires
            old(self).wf(),
        ensures
            final(self).wf(),
            final(self).category == old(self).category,
            final(self).max_number == old(self).max_number,
            old(self).last_number < old(self).max_number ==> {
                &&& r == Some((old(self).last_number + 1) as u8)
                &&& final(self).last_number == old(self).last_number + 1
                &&& inserted(
                    old(self).mapping@,
                    final(self).mapping@,
                    tmp_var_name(old(self).category@, (old(self).last_number + 1) as nat),
                    ((old(self).last_number + 1) as u8, false),
                )
            },
            old(self).last_number >= old(self).max_number ==> r is None && *final(self) == *old(
                self,
            ),
    {
        if self.last_number < self.max_number {
            self.last_number = self.last_number + 1;
            let name = format_tmp_var_name(self.category, self.last_number);
            let n = self.last_number;
            self.insert(name, (n, false));
            return Some(n);
        }
        None
    }

    /// The variable that holds register `reg`, and whether it is a function
    /// argument: the first such entry.
    pub fn search_reg(&self, reg: u8) -> (r: Option<(String, bool)>)
        ensures
            match r {
                Some((name, is_arg)) => exists|i: int|
                    0 <= i < self.mapping@.len() && (#[trigger] self.mapping@[i]).1.0 == reg
                        && name@ == self.mapping@[i].0@ && is_arg == self.mapping@[i].1.1,
                None => forall|i: int|
                    0 <= i < self.mapping@.len() ==> (#[trigger] self.mapping@[i]).1.0 != reg,
            },
    {
        let n = self.mapping.len();
        let mut i: usize = 0;
        while i < n
            invariant
                n == self.mapping@.len(),
                i <= n,
                forall|k: int| 0 <= k < i ==> (#[trigger] self.mapping@[k]).1.0 != reg,
            decreases n - i,
        {
            if self.mapping[i].1.0 == reg {
                let name = self.mapping[i].0.clone();
                return Some((name, self.mapping[i].1.1));
            }
            i = i + 1;
        }
        None
    }

    /// The register number and argument flag held under a variable name, or
    /// the message that no register is known by that name.
    pub fn get_reg(&self, var_name: &str) -> (r: Result<(u8, bool), String>)
        ensures
            match r {
                Ok(v) => exists|i: int|
                    0 <= i < self.mapping@.len() && (#[trigger] self.mapping@[i]).0@ == var_name@
                        && self.mapping@[i].1 == v,
                Err(e) => e@ == unrecognized_message(self.category@, var_name@) && forall|i: int|
                    0 <= i < self.mapping@.len() ==> (#[trigger] self.mapping@[i]).0@ != var_name@,
            },
    {
        let key = var_name.to_owned();
        match self.find(&key) {
            Some(i) => Ok(self.mapping[i].1),
            None => Err(format_unrecognized(self.category, var_name)),
        }
    }

    /// Index of the entry for a variable name.
    fn find(&self, name: &String) -> (r: Option<usize>)
        ensures
            match r {
                Some(i) => i < self.mapping@.len() && self.mapping@[i as int].0@ == name@,
                None => forall|i: int|
                    0 <= i < self.mapping@.len() ==> (#[trigger] self.mapping@[i]).0@ != name@,
            },
    {
        let n = self.mapping.len();
        let mut i: usize = 0;
        while i < n
            invariant
                n == self.mapping@.len(),
                i <= n,
                forall|k: int| 0 <= k < i ==> (#[trigger] self.mapping@[k]).0@ != name@,
            decreases n - i,
        {
            if self.mapping[i].0 == *name {
                return Some(i);
            }
            i = i + 1;
        }
        None
    }

    /// Records a register under a variable name, replacing what that name held.
    pub fn insert(&mut self, var_name: String, value: (u8, bool))
        requires
            old(self).wf(),
        ensures
            final(self).wf(),
            final(self).category == old(self).category,
            final(self).max_number == old(self).max_number,
            final(self).last_number == old(self).last_number,
            inserted(old(self).mapping@, final(self).mapping@, var_name@, value),
    {
        match self.find(&var_name) {
            Some(i) => {
                self.mapping.set(i, (var_name, value));
            },
            None => {
                self.mapping.push((var_name, value));
            },
        }
    }
}

/// `after` is `before` with `name` mapped to `value`: its entry replaced in
/// place where there was one, otherwise a new entry at the end.
pub open spec fn inserted(
    before: Seq<(String, (u8, bool))>,
    after: Seq<(String, (u8, bool))>,
    name: Seq<char>,
    value: (u8, bool),
) -> bool {
    &&& forall|i: int|
        0 <= i < before.len() && (#[trigger] before[i]).0@ == name ==> after.len() == before.len()
            && after[i].0@ == name && after[i].1 == value && forall|j: int|
            0 <= j < before.len() && j != i ==> #[trigger] after[j] == before[j]
    &&& (forall|i: int| 0 <= i < before.len() ==> (#[trigger] before[i]).0@ != name) ==> {
        &&& after.len() == before.len() + 1
        &&& after[before.len() as int].0@ == name
        &&& after[before.len() as int].1 == value
        &&& forall|j: int| 0 <= j < before.len() ==> #[trigger] after[j] == before[j]
    }
}

} // verus!
