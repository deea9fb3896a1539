# artifactsmmo

A bot that plays five characters of an online game: one fights, three gather and refine, and one
gathers herbs and crafts. The characters share a bank and tell each other what to do through flags.

- `src/` is the verified library: the game's formulas, what to wear, fight and gather, what to craft
  and buy, and the rules by which each loop and errand decides what to do next.
- `tests/` runs it on concrete values.
- `app/` is the program around it: requests to the server, printing, and the formulas that round or
  divide real numbers. Their results enter the library as integers: XP as whole numbers, damage as
  whole numbers, and rates as integers that are ordered as the rates are.

The program reads the account's token from `ARTIFACTSMMO_TOKEN` and the characters' names, separated
by commas, from `ARTIFACTSMMO_CHARACTERS`.
