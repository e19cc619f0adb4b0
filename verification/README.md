# poo_compiler

A small compiler for a C-like toy language to x86-64 Linux ELF executables,
written in Verus with its behaviour stated in contracts and proved.

The pipeline: `parsing` (source text to syntax tree), `type_checker` (annotates
every expression with its type), `compiling` (syntax tree to assembly and a data
section), `assembling` (assembly to machine code, with code and data labels
resolved), `linking` (relocation and the ELF file). `library` adds the functions
of a library, given as source text, to a program.

`app/` holds the command line driver: `poo_compiler <input.poo> <output>`.
