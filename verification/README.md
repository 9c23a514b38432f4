# redditclient

A small GTK reader for Reddit. The library under `src/` holds the parts that
decide what is shown, each with a contract proved by Verus:

- `command`: the view-change commands sent between the widgets and the command loop.
- `navigation`: the history of shown views and the step that, for each command,
  says what to load or which earlier view to go back to.
- `text`: decimal notation of integers, reading an `i32`, searching and removing
  a pattern in a string.
- `post`: what a post's widget shows and what its buttons send.
- `comments`: the rows of a comment thread, flattened depth first.
- `collapse`: reading a row's depth back from its style class, and which rows a
  click on a comment shows or hides.

`app/` is the GTK program: windows, widgets, the network client and the command
loop thread, all built on the descriptions the library computes.
