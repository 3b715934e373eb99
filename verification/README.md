# lapligence

The collection and lowering rules of Lapligence's C code generator for
Verilog/SystemVerilog simulation, written in Verus with their contracts proved.

A design is an arena of nodes (`design::Node`); `codegen::Codegen` holds the
arena and the per-node tables that collection fills (signals, arrays,
containers, procedural locals, structural drivers, subprogram names).
Every public function states, over spec functions of the arena, what it
returns or how it changes the tables, and on which inputs it fails and with
which message.

Modules:

- `ir`, `packed`, `text` — IR expressions, packed-dimension arithmetic,
  decimal and message text.
- `design`, `codegen` — the design arena, its well-formedness, and the
  generator state.
- `names`, `scopes`, `passes` — display and waveform names, scope walks, and
  the order of the emission passes.
- `locals`, `function_bodies`, `initialization`, `processes`, `contracts` —
  procedural and subprogram storage, declaration initializers, process ids,
  and process-family contracts.
- `signatures`, `virtual_interfaces`, `vi_descriptors` — subroutine and DPI
  signatures, virtual-interface compatibility and descriptors.
- `nets`, `structural`, `lvalues`, `packed_elements` — resolved nets,
  structural drivers, assignment targets, packed selections.
- `containers`, `patterns`, `fixed_arrays`, `fixed_patterns`, `expressions` —
  resizable containers, pattern keys, fixed unpacked-array views and
  assignment patterns, plusarg formats.
- `gates`, `net_groups` — builtin gate primitives lowered into one process
  per output terminal, and the resolved groups that inout connections and
  standalone wired nets form.

`emit_gate` takes its terminals already lowered (expressions, targets and
their widths, the signals the inputs read), with the instance's driver
strengths and scaled delay. `build_net_groups` takes the whole-net inout
connections as node pairs, finds their connection components
(`inout_components`) and forms one group per component
(`build_inout_net_group`); `build_wired_net_group` takes one standalone
wired net with its driving sites and their strengths.
`static_func_locals` picks the static locals a lowered subprogram keeps.
The alias-bit union-find of true net aliases, the statement and subprogram
body emission (continuous assignments, processes, function and task
bodies), left-hand-side analysis and container lowering are not here:
`IrModel` holds signals, processes, net groups, containers and
virtual-interface descriptors, and `emit_pass` gives the order of the
emission steps rather than their output.

`tests/` exercises the library on concrete designs.
