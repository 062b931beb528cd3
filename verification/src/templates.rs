//! The files a new project and a new test suite start with.
use vstd::prelude::*;

verus! {

/// `src/main.c` of a new project: a program that prints `Hello World!`.
pub const FILE_MAIN_C: &'static str = "#include <stdio.h>\n\nint main(void) {\n    printf(\"Hello World!\\n\");\n    return 0;\n}\n";

/// `tests/dcr_test.h`: the macros a test suite is written with (`TEST`, `TEST_CASE`,
/// `EXPECT`, `SKIP`) and the printing of each test's outcome.
pub const FILE_DCR_TEST_H: &'static str = "#pragma once\n#include <stdio.h>\n#include <string.h>\n\n#define DCR_TEST_PASS 0\n#define DCR_TEST_FAIL 1\n#define DCR_TEST_SKIP 2\n\n#define EXPECT(expr) \\\n    do { \\\n        if (!(expr)) { \\\n            fprintf(stderr, \"assert failed: %s (%s:%d)\\n\", #expr, __FILE__, __LINE__); \\\n            return DCR_TEST_FAIL; \\\n        } \\\n    } while (0)\n\n#define SKIP(reason) \\\n    do { \\\n        (void)(reason); \\\n        return DCR_TEST_SKIP; \\\n    } while (0)\n\n#define TEST(name) static int name(void)\n#define TEST_CASE(name) {#name, name}\n\ntypedef int (*test_fn_t)(void);\n\ntypedef struct {\n    const char *name;\n    test_fn_t fn;\n} test_case_t;\n\nstatic inline int dcr_test_raw_mode(int argc, char **argv) {\n    return argc > 1 && strcmp(argv[1], \"--dcr-raw\") == 0;\n}\n\nstatic inline void dcr_test_print_result(const char *name, int rc, int raw_mode) {\n    const char *tag = (rc == DCR_TEST_PASS) ? \"PASS\" : (rc == DCR_TEST_SKIP) ? \"SKIP\" : \"FAIL\";\n    if (raw_mode) {\n        printf(\"%s\\t%s\\n\", tag, name);\n    } else {\n        printf(\"[%s] %s\\n\", tag, name);\n    }\n}\n";

/// `tests/test.c`: a test suite with one passing test.
pub const FILE_TEST_C: &'static str = "#include \"dcr_test.h\"\n\nTEST(test_example) {\n    EXPECT(1 + 1 == 2);\n    return DCR_TEST_PASS;\n}\n\nstatic test_case_t CASES[] = {\n    TEST_CASE(test_example),\n};\n\nint main(int argc, char **argv) {\n    int raw = dcr_test_raw_mode(argc, argv);\n    int rc = 0;\n    int count = (int)(sizeof(CASES) / sizeof(CASES[0]));\n    for (int i = 0; i < count; ++i) {\n        int status = CASES[i].fn();\n        dcr_test_print_result(CASES[i].name, status, raw);\n        if (status == DCR_TEST_FAIL) {\n            rc = 1;\n        }\n    }\n    return rc;\n}\n";

} // verus!
