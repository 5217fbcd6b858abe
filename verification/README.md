# rudiff

A terminal viewer for git diffs, for going through a branch the way one goes through a pull
request. The library under `src/` holds what the viewer decides and computes, with contracts that
Verus proves; the program under `app/` reads the repository, talks to the terminal and runs other
programs.

- `text`, `width`, `path`, `order`, `util`: texts, columns, paths, sorting and formatting.
- `changes`, `git`: line diffs, hunks, content hashes, ranges, and what a changeset is made of.
- `group`, `config`, `viewed`, `commit`, `explain`: the parts of the overview and its prompts.
- `syntax`, `theme`, `style`: highlighting, labels of hunks, and which files relate to which.
- `app`: the state of the viewer. A key gives the next state and what the caller is to do.
- `ui`: what is drawn where, as a list of things to draw.
- `report`, `cli`: options, and the changeset as plain text.

Functions whose names start with `law_` state what holds across several operations: for example
that the rows of a diff show every line once, that what is written of the viewed marks reads back,
that highlighting keeps the text, and that only a few keys ask for anything to be written.

Explanations are asked of the program that the environment variable `RUDIFF_ASSISTANT` names; the
screens show it under the name in `RUDIFF_ASSISTANT_NAME`, or under its own with a capital.
