use vstd::prelude::*;

use super::types::VirtualAddress;

verus! {

/// The registers of a task saved while it is not running.
pub struct Context {
    pub x_registers: [u64; 32],
    pub v_registers: [u64; 64],
    pub elr: u64,
    pub spsr: u64,
    pub ttbr: u64,
}

impl Default for Context {
    /// A context with every register zero.
    fn default() -> (r: Self)
        ensures
            forall|i: int| 0 <= i < 32 ==> r.x_registers@[i] == 0,
            forall|i: int| 0 <= i < 64 ==> r.v_registers@[i] == 0,
            r.elr == 0 && r.spsr == 0 && r.ttbr == 0,
    {
        Context { x_registers: [0u64; 32], v_registers: [0u64; 64], elr: 0, spsr: 0, ttbr: 0 }
    }
}

impl Context {
    /// Sets the translation table that the task runs with.
    pub fn set_ttbr(&mut self, ttbr: u64)
        ensures
            final(self).ttbr == ttbr,
            final(self).x_registers@ == old(self).x_registers@,
            final(self).v_registers@ == old(self).v_registers@,
            final(self).elr == old(self).elr,
            final(self).spsr == old(self).spsr,
    {
        self.ttbr = ttbr;
    }

    /// The task's stack pointer, held in the last general register.
    pub fn get_stack(&self) -> (r: VirtualAddress)
        ensures
            r.0 == self.x_registers@[31],
    {
        VirtualAddress(self.x_registers[31])
    }

    /// Hands a system call's result to the task: the value in the first register and whether
    /// it is an error in the second.
    pub fn write_syscall_result(&mut self, result: usize, error: bool)
        ensures
            final(self).x_registers@ == old(self).x_registers@.update(0, result as u64).update(1, if error { 1u64 } else { 0u64 }),
            final(self).v_registers@ == old(self).v_registers@,
            final(self).elr == old(self).elr && final(self).spsr == old(self).spsr && final(self).ttbr == old(self).ttbr,
    {
        self.x_registers[0] = result as u64;
        self.x_registers[1] = if error { 1 } else { 0 };
    }

    /// Hands a result to the task: the value, or the error number, in the first register, and
    /// in the second whether it is an error.
    pub fn write_result(&mut self, result: Result<usize, usize>)
        ensures
            final(self).x_registers@ == match result {
                Ok(num) => old(self).x_registers@.update(0, num as u64).update(1, 0u64),
                Err(num) => old(self).x_registers@.update(0, num as u64).update(1, 1u64),
            },
            final(self).v_registers@ == old(self).v_registers@,
            final(self).elr == old(self).elr && final(self).spsr == old(self).spsr && final(self).ttbr == old(self).ttbr,
    {
        match result {
            Ok(num) => {
                self.x_registers[0] = num as u64;
                self.x_registers[1] = 0;
            },
            Err(num) => {
                self.x_registers[0] = num as u64;
                self.x_registers[1] = 1;
            },
        }
    }

    /// Hands a new program its arguments: their count, and the addresses of the argument and
    /// environment arrays.
    pub fn write_args(&mut self, argc: usize, argv: VirtualAddress, envp: VirtualAddress)
        ensures
            final(self).x_registers@ == old(self).x_registers@.update(0, argc as u64).update(1, argv.0).update(2, envp.0),
            final(self).v_registers@ == old(self).v_registers@,
            final(self).elr == old(self).elr && final(self).spsr == old(self).spsr && final(self).ttbr == old(self).ttbr,
    {
        self.x_registers[0] = argc as u64;
        self.x_registers[1] = argv.0;
        self.x_registers[2] = envp.0;
    }

    /// The arguments of a system call, held in the first six registers.
    pub fn syscall_args(&self) -> (r: [usize; 6])
        ensures
            forall|i: int| 0 <= i < 6 ==> r@[i] == self.x_registers@[i] as usize,
    {
        [
            self.x_registers[0] as usize,
            self.x_registers[1] as usize,
            self.x_registers[2] as usize,
            self.x_registers[3] as usize,
            self.x_registers[4] as usize,
            self.x_registers[5] as usize,
        ]
    }

    /// The number of the system call that the task asks for, held in the seventh register.
    pub fn syscall_number(&self) -> (r: u64)
        ensures
            r == self.x_registers@[6],
    {
        self.x_registers[6]
    }
}

} // verus!
