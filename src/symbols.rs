//! The answers of the symbol resolver, held as plain tables: which
//! function covers an address, and which source line an address belongs to.
use vstd::prelude::*;

verus! {

/// A function and the addresses `low..high` its code occupies.
pub struct FunctionSymbol {
    pub name: String,
    pub low: usize,
    pub high: usize,
}

/// The first instruction address of a source line.
pub struct LineSymbol {
    pub file: String,
    pub number: usize,
    pub address: usize,
}

/// What the debug information of the target says about its code.
/// `entry` names the program's entry function, where unwinding stops.
pub struct SymbolTable {
    pub functions: Vec<FunctionSymbol>,
    pub lines: Vec<LineSymbol>,
    pub entry: String,
}

pub open spec fn covers(f: FunctionSymbol, addr: usize) -> bool {
    f.low <= addr < f.high
}

/// Index of the first function among `fs[start..]` that covers `addr`.
pub open spec fn function_from(fs: Seq<FunctionSymbol>, addr: usize, start: int) -> Option<int>
    decreases fs.len() - start,
{
    if start < 0 || start >= fs.len() {
        None
    } else if covers(fs[start], addr) {
        Some(start)
    } else {
        function_from(fs, addr, start + 1)
    }
}

/// Index of the line among the first `n` of `ls` with the greatest address
/// not above `addr`; the earliest one among equals.
pub open spec fn line_upto(ls: Seq<LineSymbol>, addr: usize, n: int) -> Option<int>
    decreases n,
{
    if n <= 0 {
        None
    } else {
        let b = line_upto(ls, addr, n - 1);
        if ls[n - 1].address <= addr && (b matches Some(j) ==> ls[n - 1].address > ls[j].address) {
            Some(n - 1)
        } else {
            b
        }
    }
}

impl SymbolTable {
    /// The function that covers `addr`, if any: the first one listed.
    pub open spec fn spec_function_at(&self, addr: usize) -> Option<int> {
        function_from(self.functions@, addr, 0)
    }

    /// The source line of `addr`, if any: the last line that starts at or
    /// before it.
    pub open spec fn spec_line_at(&self, addr: usize) -> Option<int> {
        line_upto(self.lines@, addr, self.lines@.len() as int)
    }

    /// Function `i` is the entry function.
    pub open spec fn spec_is_entry(&self, function: Option<usize>) -> bool {
        function matches Some(i) && i < self.functions@.len() && self.functions@[i as int].name@
            == self.entry@
    }

    /// Index of the function that covers `addr`, if any.
    pub fn function_at(&self, addr: usize) -> (r: Option<usize>)
        ensures
            r matches Some(i) ==> self.spec_function_at(addr) == Some(i as int),
            r is None ==> self.spec_function_at(addr) is None,
    {
        let n = self.functions.len();
        let mut i: usize = 0;
        while i < n
            invariant
                n == self.functions@.len(),
                i <= n,
                function_from(self.functions@, addr, 0) == function_from(self.functions@, addr, i as int),
            decreases n - i,
        {
            let f = &self.functions[i];
            if f.low <= addr && addr < f.high {
                return Some(i);
            }
            i = i + 1;
        }
        None
    }

    /// Index of the source line that `addr` belongs to, if any.
    pub fn line_at(&self, addr: usize) -> (r: Option<usize>)
        ensures
            r matches Some(i) ==> self.spec_line_at(addr) == Some(i as int),
            r is None ==> self.spec_line_at(addr) is None,
    {
        let n = self.lines.len();
        let mut best: Option<usize> = None;
        let mut i: usize = 0;
        while i < n
            invariant
                n == self.lines@.len(),
                i <= n,
                best matches Some(b) ==> line_upto(self.lines@, addr, i as int) == Some(b as int),
                best is None ==> line_upto(self.lines@, addr, i as int) is None,
                best matches Some(b) ==> b < i,
            decreases n - i,
        {
            let a = self.lines[i].address;
            let better = match best {
                Some(b) => a > self.lines[b].address,
                None => true,
            };
            if a <= addr && better {
                best = Some(i);
            }
            i = i + 1;
        }
        best
    }

    /// Whether `function` is the entry function.
    pub fn is_entry(&self, function: Option<usize>) -> (r: bool)
        ensures
            r == self.spec_is_entry(function),
    {
        match function {
            Some(i) => i < self.functions.len() && self.functions[i].name == self.entry,
            None => false,
        }
    }
}

} // verus!
