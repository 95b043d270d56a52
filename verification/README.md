# orbit

A keyboard-driven application launcher for macOS: Option+Space shows a
search box over the installed applications; typing filters them fuzzily,
the arrow keys move the selection and Enter launches it.

`src/` is the verified library: the window's lifecycle state machine
(`window`), the application's reactions to requests and frames (`shell`),
the launcher's query, results and selection (`launcher`), fuzzy filtering and
ranking (`search`, with the `order` module's stable ordering by key), how a
scan's findings become the catalog and how bundles are named and recognised
(`catalog`), scan hand-off and rescan timing (`scanner`), the view's input
decisions (`view`), the menu bar entries (`tray`), start-at-login outcomes
(`login`) and decoding the menu bar icon (`icon`).

`app/` is the program around it: the egui window, the global hotkey, the menu
bar item, the file system walk and the macOS calls.
