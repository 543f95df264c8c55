# wm

The verified core of a tiling window manager, written in Verus.

The container tree (root, monitors, workspaces, split containers and
windows) is an arena of containers with parent links, child lists and
focus orders. Every operation states what it does to the tree as a
function on its mathematical model (`Seq<ContainerView>`). The tree
operations and commands keep the tree well formed and are proved to do
so; `ContainerTree::is_well_formed` checks it at run time. The
exceptions are `stack::add_to_stack` and `stack::add_to_master`, which,
like the window manager they come from, edit a workspace's child list
without the matching parent links, and
`monitor_order::sort_monitors_with_config`, which keeps the tree well
formed when the root holds only monitors.

`src/` holds the library:

- `tree` – the model, well-formedness, and the basic operations (attach,
  detach, flatten, wrap, replace, move, swap), with their laws;
- `layout`, `stack`, `grid` – tiling directions and layouts, the master
  stack, grid and spiral placement;
- `navigation`, `focus`, `directional_moves`, `floating_moves` – moving
  focus and windows in a direction, on and across monitors;
- `window_state`, `window_moves`, `window_removal` – windows changing
  state, moving between workspaces, being managed and unmanaged;
- `monitors`, `monitor_order` – monitors coming and going, workspace
  bindings, monitor order;
- `sync` – what a redraw does to each window;
- `app_command` – the command language and the plan each command makes;
- `general`, `resize`, `common`, `error`, `seqs` – the rest.

`app/` is the program around it: the command line (clap and serde forms
of the library's command types), the loop that runs commands and performs
the steps they leave to the host, and the parts computed in floating
point.

`tests/` exercises the library on concrete trees.
